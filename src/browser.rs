use vstd::prelude::*;
use crate::channel::InboundEvent;
use crate::doc::{member, str_member, Doc};
use crate::text::str_eq;

verus! {

/// A request to list a directory: its path under the browsing root.
pub struct FileSystem {
    pub path: String,
}

/// The `body.path` text of a browse request's payload.
pub open spec fn browse_path_of(d: Doc) -> Option<Seq<char>> {
    match member(d, "body"@) {
        Some(body) => str_member(body, "path"@),
        None => None,
    }
}

impl FileSystem {
    /// Reads a browse request from its payload.
    pub fn from(content: &Doc) -> (r: Option<FileSystem>)
        ensures
            match r {
                Some(f) => browse_path_of(*content) == Some(f.path@),
                None => browse_path_of(*content).is_none(),
            },
    {
        match content.get("body") {
            Some(body) => match body.get_str("path") {
                Some(path) => Some(FileSystem { path }),
                None => None,
            },
            None => None,
        }
    }
}

/// The directory that a frame on the browse channel asks to list: the
/// browsing root, a slash and the requested path; `None` for any other
/// event or a payload without a path.
pub fn browse_request(event: &InboundEvent, payload: &Doc, root_path: &str) -> (r: Option<String>)
    ensures
        match *event {
            InboundEvent::Named(name) => if name@ == "file_system"@ {
                match browse_path_of(*payload) {
                    Some(p) => r.is_some() && r.unwrap()@ == root_path@ + "/"@ + p,
                    None => r.is_none(),
                }
            } else {
                r.is_none()
            },
            _ => r.is_none(),
        },
{
    match event {
        InboundEvent::Named(name) => {
            if !str_eq(name.as_str(), "file_system") {
                return None;
            }
            match FileSystem::from(payload) {
                Some(order) => {
                    let mut full = root_path.to_string();
                    full.append("/");
                    full.append(order.path.as_str());
                    Some(full)
                },
                None => None,
            }
        },
        _ => None,
    }
}

/// One entry of a listed directory.
pub struct FileSystemEntry {
    pub root: String,
    pub filename: String,
    pub is_dir: bool,
    pub is_file: bool,
}

/// The fields of an entry's payload, keys and values, in order.
pub open spec fn entry_fields_ok(fields: Seq<(String, Doc)>, e: FileSystemEntry) -> bool {
    &&& fields.len() == 4
    &&& fields[0].0@ == "filename"@ && fields[0].1 is Str && fields[0].1->Str_0@ == e.filename@
    &&& fields[1].0@ == "is_dir"@ && fields[1].1 == Doc::Bool(e.is_dir)
    &&& fields[2].0@ == "is_file"@ && fields[2].1 == Doc::Bool(e.is_file)
    &&& fields[3].0@ == "abs_path"@ && fields[3].1 is Str && fields[3].1->Str_0@ == e.root@ + e.filename@
}

impl FileSystemEntry {
    /// The entry's payload: its name, whether it is a directory or a file,
    /// and its absolute path (the listed directory and the name).
    pub fn to_doc(&self) -> (r: Doc)
        ensures
            r is Object && entry_fields_ok(r->Object_0@, *self),
    {
        let mut abs_path = self.root.clone();
        abs_path.append(self.filename.as_str());
        let mut fields: Vec<(String, Doc)> = Vec::new();
        fields.push(("filename".to_string(), Doc::Str(self.filename.clone())));
        fields.push(("is_dir".to_string(), Doc::Bool(self.is_dir)));
        fields.push(("is_file".to_string(), Doc::Bool(self.is_file)));
        fields.push(("abs_path".to_string(), Doc::Str(abs_path)));
        Doc::Object(fields)
    }
}

/// The answer to a browse request.
pub struct FileSystemResponse {
    pub entries: Vec<FileSystemEntry>,
}

impl FileSystemResponse {
    /// The answer's payload: `entries`, the list of the entries' payloads.
    pub fn to_doc(&self) -> (r: Doc)
        ensures
            r is Object && r->Object_0@.len() == 1 && r->Object_0@[0].0@ == "entries"@
                && r->Object_0@[0].1 is Array && r->Object_0@[0].1->Array_0@.len() == self.entries@.len()
                && forall|i: int| 0 <= i < self.entries@.len() ==> {
                    let d = #[trigger] r->Object_0@[0].1->Array_0@[i];
                    d is Object && entry_fields_ok(d->Object_0@, self.entries@[i])
                },
    {
        let mut items: Vec<Doc> = Vec::new();
        let mut i: usize = 0;
        while i < self.entries.len()
            invariant
                i <= self.entries@.len(),
                items@.len() == i,
                forall|k: int| 0 <= k < i ==> {
                    let d = #[trigger] items@[k];
                    d is Object && entry_fields_ok(d->Object_0@, self.entries@[k])
                },
            decreases self.entries.len() - i,
        {
            items.push(self.entries[i].to_doc());
            i = i + 1;
        }
        let mut fields: Vec<(String, Doc)> = Vec::new();
        fields.push(("entries".to_string(), Doc::Array(items)));
        Doc::Object(fields)
    }
}

} // verus!
