use vstd::prelude::*;
use crate::lines::texts;
use crate::tail::{tail_lines, tail_offset, tail_read};

verus! {

/// The tailing state of one file: its canonical path, its open handle and the
/// number of bytes of it already delivered.
pub struct Cursor<H> {
    pub path: String,
    pub handle: H,
    pub offset: u64,
}

/// Some cursor of `s` is for path `p`.
pub open spec fn has_path<H>(s: Seq<Cursor<H>>, p: Seq<char>) -> bool {
    exists|i: int| 0 <= i < s.len() && s[i].path@ == p
}

/// No two cursors of `s` share a path.
pub open spec fn unique_paths<H>(s: Seq<Cursor<H>>) -> bool {
    forall|i: int, j: int|
        0 <= i < s.len() && 0 <= j < s.len() && s[i].path@ == s[j].path@ ==> i == j
}

/// The position in `s` of the cursor for `p`.
pub open spec fn index_of<H>(s: Seq<Cursor<H>>, p: Seq<char>) -> int {
    choose|i: int| 0 <= i < s.len() && s[i].path@ == p
}

/// Each tracked path with its handle and offset.
pub open spec fn cursor_map<H>(s: Seq<Cursor<H>>) -> Map<Seq<char>, (H, u64)> {
    Map::new(
        |p: Seq<char>| has_path(s, p),
        |p: Seq<char>| (s[index_of(s, p)].handle, s[index_of(s, p)].offset),
    )
}

proof fn lemma_index_of<H>(s: Seq<Cursor<H>>, i: int)
    requires
        unique_paths(s),
        0 <= i < s.len(),
    ensures
        has_path(s, s[i].path@),
        index_of(s, s[i].path@) == i,
{
    let p = s[i].path@;
    assert(has_path(s, p));
    let j = index_of(s, p);
    assert(0 <= j < s.len() && s[j].path@ == p);
}

proof fn lemma_map_push<H>(s: Seq<Cursor<H>>, c: Cursor<H>)
    requires
        unique_paths(s),
        !has_path(s, c.path@),
    ensures
        unique_paths(s.push(c)),
        cursor_map(s.push(c)) == cursor_map(s).insert(c.path@, (c.handle, c.offset)),
{
    let t = s.push(c);
    assert(unique_paths(t)) by {
        assert forall|i: int, j: int|
            0 <= i < t.len() && 0 <= j < t.len() && t[i].path@ == t[j].path@ implies i == j by {
            if i < s.len() && j == s.len() {
                assert(s[i].path@ == c.path@);
            } else if j < s.len() && i == s.len() {
                assert(s[j].path@ == c.path@);
            }
        }
    }
    lemma_index_of(t, s.len() as int);
    assert forall|p: Seq<char>| has_path(s, p) implies has_path(t, p) && cursor_map(t)[p]
        == cursor_map(s)[p] by {
        let i = index_of(s, p);
        lemma_index_of(s, i);
        assert(t[i] == s[i]);
        lemma_index_of(t, i);
    }
    assert forall|p: Seq<char>| has_path(t, p) implies has_path(s, p) || p == c.path@ by {
        let i = index_of(t, p);
        if i < s.len() {
            assert(s[i] == t[i]);
        }
    }
    assert(cursor_map(t) =~= cursor_map(s).insert(c.path@, (c.handle, c.offset)));
}

proof fn lemma_map_update<H>(s: Seq<Cursor<H>>, i: int, c: Cursor<H>)
    requires
        unique_paths(s),
        0 <= i < s.len(),
        c.path@ == s[i].path@,
    ensures
        unique_paths(s.update(i, c)),
        cursor_map(s.update(i, c)) == cursor_map(s).insert(c.path@, (c.handle, c.offset)),
{
    let t = s.update(i, c);
    assert(unique_paths(t)) by {
        assert forall|a: int, b: int|
            0 <= a < t.len() && 0 <= b < t.len() && t[a].path@ == t[b].path@ implies a == b by {
            assert(s[a].path@ == t[a].path@ && s[b].path@ == t[b].path@);
        }
    }
    lemma_index_of(t, i);
    assert forall|p: Seq<char>| has_path(s, p) <==> has_path(t, p) by {
        if has_path(s, p) {
            let k = index_of(s, p);
            assert(t[k].path@ == p);
        }
        if has_path(t, p) {
            let k = index_of(t, p);
            assert(s[k].path@ == p);
        }
    }
    assert forall|p: Seq<char>| has_path(s, p) && p != c.path@ implies cursor_map(t)[p]
        == cursor_map(s)[p] by {
        let k = index_of(s, p);
        lemma_index_of(s, k);
        lemma_index_of(t, k);
    }
    assert(cursor_map(t) =~= cursor_map(s).insert(c.path@, (c.handle, c.offset)));
}

proof fn lemma_map_remove<H>(s: Seq<Cursor<H>>, i: int)
    requires
        unique_paths(s),
        0 <= i < s.len(),
    ensures
        unique_paths(s.remove(i)),
        cursor_map(s.remove(i)) == cursor_map(s).remove(s[i].path@),
{
    let t = s.remove(i);
    let q = s[i].path@;
    assert(unique_paths(t)) by {
        assert forall|a: int, b: int|
            0 <= a < t.len() && 0 <= b < t.len() && t[a].path@ == t[b].path@ implies a == b by {
            let a2 = if a < i { a } else { a + 1 };
            let b2 = if b < i { b } else { b + 1 };
            assert(t[a] == s[a2] && t[b] == s[b2]);
        }
    }
    assert forall|p: Seq<char>| #[trigger] has_path(t, p) <==> (has_path(s, p) && p != q) by {
        if has_path(t, p) {
            let k = index_of(t, p);
            let k2 = if k < i { k } else { k + 1 };
            assert(s[k2] == t[k]);
            assert(k2 != i);
        }
        if has_path(s, p) && p != q {
            let k = index_of(s, p);
            assert(k != i);
            let k2 = if k < i { k } else { k - 1 };
            assert(t[k2] == s[k]);
        }
    }
    assert forall|p: Seq<char>| has_path(t, p) implies cursor_map(t)[p] == cursor_map(s)[p] by {
        let k = index_of(t, p);
        lemma_index_of(t, k);
        let k2 = if k < i { k } else { k + 1 };
        assert(s[k2] == t[k]);
        lemma_index_of(s, k2);
    }
    assert(cursor_map(t) =~= cursor_map(s).remove(q));
}

/// The open files being tailed, at most one cursor for each canonical path.
pub struct CursorRegistry<H> {
    cursors: Vec<Cursor<H>>,
}

impl<H> View for CursorRegistry<H> {
    type V = Map<Seq<char>, (H, u64)>;

    closed spec fn view(&self) -> Map<Seq<char>, (H, u64)> {
        cursor_map(self.cursors@)
    }
}

impl<H> CursorRegistry<H> {
    /// At most one cursor for each path.
    pub closed spec fn wf(&self) -> bool {
        unique_paths(self.cursors@)
    }

    /// The tracked paths, in the order in which the registry walks them.
    pub closed spec fn order(&self) -> Seq<Seq<char>> {
        self.cursors@.map_values(|c: Cursor<H>| c.path@)
    }

    pub fn new() -> (r: Self)
        ensures
            r.wf(),
            r@ == Map::<Seq<char>, (H, u64)>::empty(),
    {
        let r = CursorRegistry { cursors: Vec::new() };
        assert(r@ =~= Map::<Seq<char>, (H, u64)>::empty());
        r
    }

    fn find(&self, path: &String) -> (r: Option<usize>)
        requires
            self.wf(),
        ensures
            r is None ==> !self@.dom().contains(path@),
            r matches Some(i) ==> i < self.cursors@.len() && self.cursors@[i as int].path@
                == path@ && index_of(self.cursors@, path@) == i,
    {
        let mut i: usize = 0;
        while i < self.cursors.len()
            invariant
                i <= self.cursors@.len(),
                unique_paths(self.cursors@),
                forall|k: int| 0 <= k < i ==> self.cursors@[k].path@ != path@,
            decreases self.cursors.len() - i,
        {
            if self.cursors[i].path == *path {
                proof {
                    lemma_index_of(self.cursors@, i as int);
                }
                return Some(i);
            }
            i = i + 1;
        }
        None
    }

    /// Whether `path` has a cursor.
    pub fn contains(&self, path: &String) -> (r: bool)
        requires
            self.wf(),
        ensures
            r == self@.dom().contains(path@),
    {
        self.find(path).is_some()
    }

    /// The delivered offset of `path`, if it is tracked.
    pub fn offset(&self, path: &String) -> (r: Option<u64>)
        requires
            self.wf(),
        ensures
            r == (if self@.dom().contains(path@) {
                Some(self@[path@].1)
            } else {
                None
            }),
    {
        match self.find(path) {
            Some(i) => Some(self.cursors[i].offset),
            None => None,
        }
    }

    /// The open handle of `path`, if it is tracked.
    pub fn handle(&self, path: &String) -> (r: Option<&H>)
        requires
            self.wf(),
        ensures
            r is Some <==> self@.dom().contains(path@),
            r matches Some(h) ==> *h == self@[path@].0,
    {
        match self.find(path) {
            Some(i) => Some(&self.cursors[i].handle),
            None => None,
        }
    }

    /// The tracked paths, in the registry's order.
    pub fn paths(&self) -> (r: Vec<String>)
        requires
            self.wf(),
        ensures
            r@.map_values(|s: String| s@) == self.order(),
            forall|p: Seq<char>| self@.dom().contains(p) <==> self.order().contains(p),
    {
        let mut out: Vec<String> = Vec::new();
        let mut i: usize = 0;
        while i < self.cursors.len()
            invariant
                i <= self.cursors@.len(),
                out@.map_values(|s: String| s@) == self.order().take(i as int),
            decreases self.cursors.len() - i,
        {
            let ghost before = out@;
            let name = self.cursors[i].path.clone();
            out.push(name);
            proof {
                assert(before.map_values(|s: String| s@) == self.order().take(i as int));
                assert(out@ == before.push(name));
                assert(self.order()[i as int] == name@);
                assert(out@.map_values(|s: String| s@) =~= before.map_values(|s: String| s@).push(
                    name@,
                ));
                assert(out@.map_values(|s: String| s@) =~= self.order().take(i + 1));
            }
            i = i + 1;
        }
        proof {
            assert(self.order().take(i as int) =~= self.order());
            assert forall|p: Seq<char>| self@.dom().contains(p) <==> self.order().contains(p) by {
                if self@.dom().contains(p) {
                    let k = index_of(self.cursors@, p);
                    assert(self.order()[k] == p);
                }
                if self.order().contains(p) {
                    let k = choose|k: int| 0 <= k < self.order().len() && self.order()[k] == p;
                    assert(self.cursors@[k].path@ == p);
                }
            }
        }
        out
    }

    /// Tracks `path` from offset zero with `handle`. A cursor that `path` had is
    /// replaced, and its handle handed back.
    pub fn insert(&mut self, path: String, handle: H) -> (r: Option<H>)
        requires
            old(self).wf(),
        ensures
            final(self).wf(),
            final(self)@ == old(self)@.insert(path@, (handle, 0u64)),
            r is Some <==> old(self)@.dom().contains(path@),
            r matches Some(h) ==> h == old(self)@[path@].0,
    {
        let ghost p = path@;
        let ghost h0 = handle;
        match self.find(&path) {
            Some(i) => {
                let ghost s = self.cursors@;
                let c = Cursor { path, handle, offset: 0 };
                proof {
                    lemma_index_of(s, i as int);
                    lemma_map_update(s, i as int, c);
                }
                let prev = self.cursors.remove(i);
                self.cursors.insert(i, c);
                assert(self.cursors@ =~= s.update(i as int, c));
                Some(prev.handle)
            },
            None => {
                let c = Cursor { path, handle, offset: 0 };
                proof {
                    lemma_map_push(self.cursors@, c);
                }
                self.cursors.push(c);
                None
            },
        }
    }

    /// Stops tracking `path` and hands back its handle, if it was tracked.
    pub fn remove(&mut self, path: &String) -> (r: Option<H>)
        requires
            old(self).wf(),
        ensures
            final(self).wf(),
            final(self)@ == old(self)@.remove(path@),
            r is Some <==> old(self)@.dom().contains(path@),
            r matches Some(h) ==> h == old(self)@[path@].0,
    {
        match self.find(path) {
            Some(i) => {
                proof {
                    lemma_index_of(self.cursors@, i as int);
                    lemma_map_remove(self.cursors@, i as int);
                }
                let c = self.cursors.remove(i);
                Some(c.handle)
            },
            None => {
                assert(old(self)@.remove(path@) =~= old(self)@);
                None
            },
        }
    }

    /// Runs one tail read on the cursor of `path`: `len` is the file's length
    /// now and `chunk` its bytes from the cursor's offset on. The complete lines
    /// come back and the offset moves past them. An untracked path reads nothing.
    pub fn advance(&mut self, path: &String, len: u64, chunk: &[u8]) -> (r: Vec<String>)
        requires
            old(self).wf(),
        ensures
            final(self).wf(),
            !old(self)@.dom().contains(path@) ==> final(self)@ == old(self)@ && r@.len() == 0,
            old(self)@.dom().contains(path@) ==> {
                let (h, pos) = old(self)@[path@];
                &&& texts(r@) == tail_lines(pos as nat, len as nat, chunk@)
                &&& final(self)@ == old(self)@.insert(
                    path@,
                    (h, tail_offset(pos as nat, len as nat, chunk@) as u64),
                )
            },
    {
        match self.find(path) {
            Some(i) => {
                let ghost s = self.cursors@;
                proof {
                    lemma_index_of(s, i as int);
                }
                let mut c = self.cursors.remove(i);
                let (lines, next) = tail_read(c.offset, len, chunk);
                c.offset = next;
                proof {
                    lemma_map_update(s, i as int, c);
                }
                self.cursors.insert(i, c);
                assert(self.cursors@ =~= s.update(i as int, c));
                lines
            },
            None => Vec::new(),
        }
    }
}

} // verus!
