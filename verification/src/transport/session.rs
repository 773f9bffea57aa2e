use vstd::prelude::*;

use crate::text;

verus! {

/// Where the session key is kept, and how a stored key is read.
///
/// The key is the only durable client-side artefact that is needed to resume after a
/// restart. It is a text made by the server, opaque to us.
#[derive(Debug)]
pub struct SessionStore {
    path: String,
}

/// The key that a stored text holds: the text without white space around it, if
/// anything is left.
pub open spec fn key_in(contents: Seq<char>) -> Option<Seq<char>> {
    if text::trimmed(contents).len() == 0 {
        None
    } else {
        Some(text::trimmed(contents))
    }
}

impl SessionStore {
    /// The path of the file that holds the session key.
    pub closed spec fn location(&self) -> Seq<char> {
        self.path@
    }

    /// `path` is the file that holds the session key.
    pub fn new(path: String) -> (store: SessionStore)
        ensures
            store.location() == path@,
    {
        SessionStore { path }
    }

    pub fn path(&self) -> (path: &str)
        ensures
            path@ == self.location(),
    {
        self.path.as_str()
    }

    /// The key that was stored, if any. `contents` is what the file holds, `None`
    /// where there is no file.
    pub fn load(&self, contents: Option<&str>) -> (key: Option<String>)
        ensures
            match contents {
                None => key is None,
                Some(c) => match key_in(c@) {
                    Some(k) => key matches Some(s) && s@ == k,
                    None => key is None,
                },
            },
    {
        match contents {
            None => None,
            Some(c) => {
                let trimmed = text::trim(c);
                if trimmed.unicode_len() == 0 {
                    None
                } else {
                    Some(trimmed.to_owned())
                }
            },
        }
    }
}

impl Clone for SessionStore {
    fn clone(&self) -> (store: SessionStore)
        ensures
            store.location() == self.location(),
    {
        SessionStore { path: self.path.clone() }
    }
}

/// What was saved is loaded again, unless white space stands at its ends or it is
/// empty.
pub proof fn saved_keys_load(key: Seq<char>)
    requires
        key.len() > 0,
        !text::white(key[0]),
        !text::white(key.last()),
    ensures
        key_in(key) == Some(key),
{
}

} // verus!
