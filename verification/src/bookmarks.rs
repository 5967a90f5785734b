//! Bookmarks: windows, or rules that windows match, that the user can jump back to.

use vstd::prelude::*;

use crate::ids::WindowId;

verus! {

/// A bookmark.
#[derive(Clone, Copy, Debug, PartialEq, Eq, Structural)]
pub struct Bookmark {
    /// Its number.
    pub id: u64,
    /// The window it leads to. A rule that no window matches leads nowhere.
    pub window: Option<WindowId>,
    /// Whether it is a rule, which outlives its window.
    pub rule: bool,
    /// The key that jumps to it, interned by the caller.
    pub key: Option<u64>,
}

/// Mathematical model of [`Bookmarks`].
#[verifier::ext_equal]
pub struct BookmarksModel {
    pub list: Seq<Bookmark>,
    pub next: int,
    pub cursor: Option<usize>,
    pub last_visited: Option<u64>,
    pub return_target: Option<WindowId>,
}

/// The predicate that picks the bookmarks that stay when window `w` closes.
pub open spec fn outlives(w: WindowId) -> spec_fn(Bookmark) -> bool {
    |b: Bookmark| !(b.window == Some(w) && !b.rule)
}

/// Bookmark `b` leading nowhere if it led to window `w`.
pub open spec fn detached(b: Bookmark, w: WindowId) -> Bookmark {
    if b.window == Some(w) {
        Bookmark { window: None, ..b }
    } else {
        b
    }
}

impl BookmarksModel {
    /// What remains when window `w` closes.
    pub open spec fn prune(self, w: WindowId) -> BookmarksModel {
        let kept = self.list.filter(outlives(w));
        let list = Seq::new(kept.len(), |i: int| detached(kept[i], w));
        BookmarksModel {
            list,
            cursor: match self.cursor {
                Some(c) => if c < list.len() {
                    Some(c)
                } else {
                    None
                },
                None => None,
            },
            return_target: if self.return_target == Some(w) {
                None
            } else {
                self.return_target
            },
            ..self
        }
    }

    /// Whether anything leads to window `w`.
    pub open spec fn mentions(self, w: WindowId) -> bool {
        ||| self.return_target == Some(w)
        ||| exists|i: int| 0 <= i < self.list.len() && (#[trigger] self.list[i]).window == Some(w)
    }
}

/// The bookmarks, in the user's order.
#[derive(Debug)]
pub struct Bookmarks {
    /// The bookmarks.
    pub list: Vec<Bookmark>,
    /// The number the next new bookmark gets.
    pub next_id: u64,
    /// Where the user is while walking through them.
    pub walk_cursor: Option<usize>,
    /// The bookmark that was visited last, though it may be gone.
    pub last_visited: Option<u64>,
    /// The window to return to after a jump.
    pub return_target: Option<WindowId>,
}

impl View for Bookmarks {
    type V = BookmarksModel;

    open spec fn view(&self) -> BookmarksModel {
        BookmarksModel {
            list: self.list@,
            next: self.next_id as int,
            cursor: self.walk_cursor,
            last_visited: self.last_visited,
            return_target: self.return_target,
        }
    }
}

impl Bookmarks {
    /// No bookmarks.
    pub fn new() -> (b: Bookmarks)
        ensures
            b@ == (BookmarksModel {
                list: Seq::empty(),
                next: 1,
                cursor: None,
                last_visited: None,
                return_target: None,
            }),
    {
        Bookmarks {
            list: Vec::new(),
            next_id: 1,
            walk_cursor: None,
            last_visited: None,
            return_target: None,
        }
    }

    /// Forgets window `w`, which closes. Rules stay and lead nowhere.
    pub fn prune_window(&mut self, w: WindowId)
        ensures
            final(self)@ == old(self)@.prune(w),
    {
        let ghost start = self@;
        let ghost p = outlives(w);
        let mut kept: Vec<Bookmark> = Vec::new();
        let mut i: usize = 0;
        while i < self.list.len()
            invariant
                i <= self.list@.len(),
                self@ == start,
                p == outlives(w),
                kept@.len() == start.list.take(i as int).filter(p).len(),
                forall|k: int|
                    0 <= k < kept@.len() ==> #[trigger] kept@[k] == detached(
                        start.list.take(i as int).filter(p)[k],
                        w,
                    ),
            decreases self.list@.len() - i,
        {
            let b = self.list[i];
            proof {
                assert(start.list.take(i + 1).drop_last() =~= start.list.take(i as int));
                assert(start.list.take(i + 1).last() == b);
                reveal(Seq::filter);
            }
            let here = match b.window {
                Some(x) => x == w,
                None => false,
            };
            if !(here && !b.rule) {
                if here {
                    kept.push(Bookmark { id: b.id, window: None, rule: b.rule, key: b.key });
                } else {
                    kept.push(b);
                }
            }
            i = i + 1;
        }
        assert(start.list.take(i as int) =~= start.list);
        assert(kept@ =~= start.prune(w).list);
        self.list = kept;
        if let Some(c) = self.walk_cursor {
            if c >= self.list.len() {
                self.walk_cursor = None;
            }
        }
        let back = match self.return_target {
            Some(x) => x == w,
            None => false,
        };
        if back {
            self.return_target = None;
        }
    }
}

/// Once a window is closed, no bookmark leads to it, and every bookmark that led elsewhere is
/// still there.
pub proof fn law_prune_forgets(s: BookmarksModel, w: WindowId)
    ensures
        !s.prune(w).mentions(w),
        forall|i: int|
            0 <= i < s.list.len() && (#[trigger] s.list[i]).window != Some(w) ==> s.prune(
                w,
            ).list.contains(s.list[i]),
{
    let kept = s.list.filter(outlives(w));
    let t = s.prune(w);
    assert forall|i: int| 0 <= i < s.list.len() && (#[trigger] s.list[i]).window != Some(
        w,
    ) implies t.list.contains(s.list[i]) by {
        s.list.lemma_filter_contains(outlives(w), i);
        let k = choose|k: int| 0 <= k < kept.len() && kept[k] == s.list[i];
        assert(t.list[k] == s.list[i]);
    }
}

/// What a filter keeps comes from distinct places, in order.
pub proof fn lemma_filter_places(s: Seq<Bookmark>, p: spec_fn(Bookmark) -> bool)
    ensures
        forall|i: int|
            0 <= i < s.filter(p).len() ==> exists|k: int|
                0 <= k < s.len() && s[k] == #[trigger] s.filter(p)[i],
        forall|i: int, j: int|
            0 <= i < j < s.filter(p).len() ==> exists|k: int, l: int|
                0 <= k < l < s.len() && s[k] == #[trigger] s.filter(p)[i] && s[l]
                    == #[trigger] s.filter(p)[j],
    decreases s.len(),
{
    reveal(Seq::filter);
    if s.len() > 0 {
        let rest = s.drop_last();
        let n = s.len() - 1;
        let f = rest.filter(p);
        let g = s.filter(p);
        lemma_filter_places(rest, p);
        assert forall|i: int| 0 <= i < g.len() implies exists|k: int|
            0 <= k < s.len() && s[k] == #[trigger] g[i] by {
            if i < f.len() {
                let k = choose|k: int| 0 <= k < rest.len() && rest[k] == f[i];
                assert(s[k] == g[i]);
            } else {
                assert(s[n] == g[i]);
            }
        }
        assert forall|i: int, j: int| 0 <= i < j < g.len() implies exists|k: int, l: int|
            0 <= k < l < s.len() && s[k] == #[trigger] g[i] && s[l] == #[trigger] g[j] by {
            if j < f.len() {
                let (k, l) = choose|k: int, l: int|
                    0 <= k < l < rest.len() && rest[k] == f[i] && rest[l] == f[j];
                assert(s[k] == g[i] && s[l] == g[j]);
            } else {
                let k = choose|k: int| 0 <= k < rest.len() && rest[k] == f[i];
                assert(s[k] == g[i] && s[n] == g[j]);
            }
        }
    }
}

} // verus!
