//! The public machine-readable configuration file, exactly as clients
//! fetch it.

use vstd::prelude::*;
use crate::codec::{bool_json, qstr, push_qstr};

verus! {

/// The public configuration record: the download template (plain
/// text, since clients replace its literal placeholder braces), the
/// dynamic interface base (always absent here), and whether access
/// requires authentication.
#[derive(Debug)]
pub struct Root {
    pub dl: String,
    pub api: Option<String>,
    pub auth_required: bool,
}

/// The rendered public configuration: `dl`, `api` (null when absent)
/// and the kebab-case `auth-required`, in that order.
pub open spec fn spec_render(dl: Seq<char>, api: Option<Seq<char>>, auth_required: bool) -> Seq<
    char,
> {
    "{\"dl\":"@ + qstr(dl) + ",\"api\":"@ + (match api {
        None => "null"@,
        Some(a) => qstr(a),
    }) + ",\"auth-required\":"@ + bool_json(auth_required) + "}"@
}

impl Root {
    /// Renders the record, exactly `spec_render`.
    pub fn render(&self) -> (r: String)
        ensures
            r@ == spec_render(self.dl@, crate::index_entry::opt_view(self.api), self.auth_required),
    {
        let mut out = String::new();
        out.append("{\"dl\":");
        push_qstr(&mut out, self.dl.as_str());
        out.append(",\"api\":");
        match &self.api {
            None => out.append("null"),
            Some(a) => push_qstr(&mut out, a.as_str()),
        }
        out.append(",\"auth-required\":");
        if self.auth_required {
            out.append("true");
        } else {
            out.append("false");
        }
        out.append("}");
        proof {
            assert(out@ =~= spec_render(
                self.dl@,
                crate::index_entry::opt_view(self.api),
                self.auth_required,
            ));
        }
        out
    }
}

} // verus!
