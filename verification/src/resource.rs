use vstd::prelude::*;
use vstd::string::*;

verus! {

/// Where a path leads: into the resource directory, or wherever it says.
#[derive(Debug, Clone, PartialEq, Eq)]
pub enum Resolved {
    /// A file of the resource directory, by its path below that directory.
    Resource(String),
    /// Any other path, as it was given.
    Plain(String),
}

/// Tells paths into the resource directory, which start with `~res:`, from
/// all others.
pub struct ResourceLoader {
    res_prefix: String,
}

/// Tells whether `path` starts with `prefix`.
pub fn starts_with(path: &str, prefix: &str) -> (found: bool)
    ensures
        found == prefix@.is_prefix_of(path@),
{
    let n = prefix.unicode_len();
    if n > path.unicode_len() {
        return false;
    }
    let mut i: usize = 0;
    while i < n
        invariant
            n == prefix@.len(),
            n <= path@.len(),
            i <= n,
            forall|k: int| 0 <= k < i ==> path@[k] == prefix@[k],
        decreases n - i,
    {
        if path.get_char(i) != prefix.get_char(i) {
            assert(path@.subrange(0, n as int)[i as int] != prefix@[i as int]);
            return false;
        }
        i += 1;
    }
    assert(prefix@ =~= path@.subrange(0, n as int));
    true
}

impl ResourceLoader {
    /// The mark that a path into the resource directory starts with.
    pub closed spec fn prefix(&self) -> Seq<char> {
        self.res_prefix@
    }

    /// A loader that knows the mark `~res:`.
    pub fn new() -> (loader: ResourceLoader)
        ensures
            loader.prefix() == "~res:"@,
    {
        ResourceLoader { res_prefix: "~res:".to_owned() }
    }

    /// Resolves `path`: one that starts with the mark leads into the resource
    /// directory, to what follows the mark; any other stays as it is.
    pub fn resolve_path(&self, path: &str) -> (resolved: Resolved)
        ensures
            match resolved {
                Resolved::Resource(rel) => self.prefix().is_prefix_of(path@) && rel@
                    == path@.skip(self.prefix().len() as int),
                Resolved::Plain(same) => !self.prefix().is_prefix_of(path@) && same@ == path@,
            },
    {
        if starts_with(path, self.res_prefix.as_str()) {
            let from = self.res_prefix.as_str().unicode_len();
            let rel = path.substring_char(from, path.unicode_len());
            Resolved::Resource(rel.to_owned())
        } else {
            Resolved::Plain(path.to_owned())
        }
    }
}

} // verus!
