//! Values parsed from files that may change on disk.
use crate::clock::Timestamp;
use std::sync::Arc;
use vstd::prelude::*;

verus! {

/// Keeps a value parsed from a file, and parses it again once the file's
/// modification time has changed.
pub struct ReloadCache<T> {
    path: String,
    cached: Option<(Timestamp, Arc<T>)>,
}

impl<T> ReloadCache<T> {
    /// The watched file.
    pub closed spec fn watched(&self) -> Seq<char> {
        self.path@
    }

    /// The value kept, with the modification time it was parsed at.
    pub closed spec fn kept(&self) -> Option<(Timestamp, T)> {
        match self.cached {
            Some((t, v)) => Some((t, *v)),
            None => None,
        }
    }

    /// A cache watching the given file.
    pub fn new(path: String) -> (r: ReloadCache<T>)
        ensures
            r.watched() == path@,
            r.kept() is None,
    {
        ReloadCache { path, cached: None }
    }

    /// The watched file.
    pub fn path(&self) -> (r: &str)
        ensures
            r@ == self.watched(),
    {
        self.path.as_str()
    }

    /// The current value, given the file's modification time, which is absent
    /// where the file is missing. `load` parses it where it has changed.
    pub fn get<F: FnOnce() -> Option<T>>(&mut self, mtime: Option<Timestamp>, load: F) -> (r:
        Option<Arc<T>>)
        requires
            call_requires(load, ()),
        ensures
            final(self).watched() == old(self).watched(),
            reloaded(
                old(self).kept(),
                final(self).kept(),
                mtime,
                load,
                match r {
                    Some(v) => Some(*v),
                    None => None,
                },
            ),
    {
        let now = match mtime {
            Some(t) => t,
            None => return None,
        };
        if let Some((t, value)) = &self.cached {
            if t.nanos == now.nanos {
                return Some(value.clone());
            }
        }
        match load() {
            Some(v) => {
                let value = Arc::new(v);
                let copy = value.clone();
                self.cached = Some((now, copy));
                Some(value)
            },
            None => None,
        }
    }
}

/// What a look at the watched file comes to: nothing where the file is
/// missing; the kept value where the file is unchanged; otherwise what `load`
/// gives, which is then kept, unless it gives nothing.
pub open spec fn reloaded<T, F: FnOnce() -> Option<T>>(
    before: Option<(Timestamp, T)>,
    after: Option<(Timestamp, T)>,
    mtime: Option<Timestamp>,
    load: F,
    value: Option<T>,
) -> bool {
    match mtime {
        None => value is None && after == before,
        Some(now) => if before matches Some((t, _)) && t == now {
            after == before && value == Some((before->0).1)
        } else {
            &&& call_ensures(load, (), value)
            &&& after == match value {
                Some(v) => Some((now, v)),
                None => before,
            }
        },
    }
}

/// While the file is unchanged, the value stays the one that was last loaded.
pub proof fn law_unchanged_file_is_not_reloaded<T, F: FnOnce() -> Option<T>, G: FnOnce() -> Option<T>>(
    first: Option<(Timestamp, T)>,
    second: Option<(Timestamp, T)>,
    third: Option<(Timestamp, T)>,
    now: Timestamp,
    load: F,
    again: G,
    value: T,
    later: Option<T>,
)
    requires
        reloaded(first, second, Some(now), load, Some(value)),
        reloaded(second, third, Some(now), again, later),
    ensures
        later == Some(value),
        third == second,
{
}

} // verus!
