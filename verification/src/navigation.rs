//! Note-to-note navigation history (back and forward stacks), independent of
//! the UI and of the storage backend.
use vstd::prelude::*;
use crate::text::{chars_of, has_prefix, owned, push_char, seq_eq, starts_with};
use crate::workspace::EntryId;

verus! {

/// The character view of a list of entry ids.
pub open spec fn id_views(v: Seq<String>) -> Seq<Seq<char>> {
    v.map_values(|s: String| s@)
}

/// `id` is `root` itself or lies beneath the folder `root`.
pub open spec fn is_at_or_under(id: Seq<char>, root: Seq<char>) -> bool {
    id == root || starts_with(id, root.push('/'))
}

/// The id that `id` has after the entry `old` is renamed or moved to `new`.
pub open spec fn rebased_id(id: Seq<char>, old: Seq<char>, new: Seq<char>) -> Seq<char> {
    if id == old {
        new
    } else if starts_with(id, old.push('/')) {
        new.push('/') + id.skip(old.len() + 1int)
    } else {
        id
    }
}

/// Every id of `s` rebased from `old` to `new`.
pub open spec fn rebased_ids(s: Seq<Seq<char>>, old: Seq<char>, new: Seq<char>) -> Seq<Seq<char>> {
    s.map_values(|id: Seq<char>| rebased_id(id, old, new))
}

/// The ids of `s` that are neither `root` nor beneath it, in order.
pub open spec fn ids_outside(s: Seq<Seq<char>>, root: Seq<char>) -> Seq<Seq<char>>
    decreases s.len(),
{
    if s.len() == 0 {
        s
    } else {
        let rest = ids_outside(s.drop_last(), root);
        if is_at_or_under(s.last(), root) {
            rest
        } else {
            rest.push(s.last())
        }
    }
}

/// The abstract history: the back stack and the forward stack, most recent last.
pub struct History {
    pub back: Seq<Seq<char>>,
    pub forward: Seq<Seq<char>>,
}

/// The history after visiting a note while `current` was open.
pub open spec fn visited(h: History, current: Option<Seq<char>>) -> History {
    match current {
        Some(c) => History { back: h.back.push(c), forward: Seq::empty() },
        None => h,
    }
}

/// The history and target after stepping back while `current` is open.
pub open spec fn stepped_back(h: History, current: Option<Seq<char>>) -> (History, Option<Seq<char>>) {
    if h.back.len() == 0 {
        (h, None)
    } else {
        let forward = match current {
            Some(c) => h.forward.push(c),
            None => h.forward,
        };
        (History { back: h.back.drop_last(), forward }, Some(h.back.last()))
    }
}

/// The history and target after stepping forward while `current` is open.
pub open spec fn stepped_forward(h: History, current: Option<Seq<char>>) -> (History, Option<Seq<char>>) {
    if h.forward.len() == 0 {
        (h, None)
    } else {
        let back = match current {
            Some(c) => h.back.push(c),
            None => h.back,
        };
        (History { back, forward: h.forward.drop_last() }, Some(h.forward.last()))
    }
}

/// The character view of an optional id.
pub open spec fn opt_view(o: Option<&str>) -> Option<Seq<char>> {
    match o {
        Some(s) => Some(s@),
        None => None,
    }
}

/// The character view of an optional owned id.
pub open spec fn opt_string_view(o: Option<String>) -> Option<Seq<char>> {
    match o {
        Some(s) => Some(s@),
        None => None,
    }
}

/// Note-to-note navigation state.
pub struct NavigationState {
    back: Vec<EntryId>,
    forward: Vec<EntryId>,
}

impl View for NavigationState {
    type V = History;

    closed spec fn view(&self) -> History {
        History { back: id_views(self.back@), forward: id_views(self.forward@) }
    }
}

/// The id of `id` after `old` becomes `new`.
pub fn rebase_id(id: &str, old: &str, new: &str) -> (r: EntryId)
    ensures
        r@ == rebased_id(id@, old@, new@),
{
    let idv = chars_of(id);
    let oldv = chars_of(old);
    if seq_eq(idv.as_slice(), oldv.as_slice()) {
        return owned(new);
    }
    let mut prefix = oldv.clone();
    prefix.push('/');
    if has_prefix(idv.as_slice(), prefix.as_slice()) {
        let mut r = owned(new);
        push_char(&mut r, '/');
        let mut i = prefix.len();
        while i < idv.len()
            invariant
                prefix@.len() <= i <= idv@.len(),
                r@ == new@.push('/') + idv@.subrange(prefix@.len() as int, i as int),
            decreases idv@.len() - i,
        {
            push_char(&mut r, idv[i]);
            proof {
                assert(idv@.subrange(prefix@.len() as int, i + 1) =~= idv@.subrange(
                    prefix@.len() as int,
                    i as int,
                ).push(idv@[i as int]));
            }
            i = i + 1;
        }
        proof {
            assert(idv@.subrange(prefix@.len() as int, idv@.len() as int) =~= idv@.skip(
                oldv@.len() + 1int,
            ));
        }
        return r;
    }
    owned(id)
}

/// Whether `id` is `root` or beneath it.
pub fn id_is_at_or_under(id: &str, root: &str) -> (r: bool)
    ensures
        r == is_at_or_under(id@, root@),
{
    let idv = chars_of(id);
    let rootv = chars_of(root);
    if seq_eq(idv.as_slice(), rootv.as_slice()) {
        return true;
    }
    let mut prefix = rootv;
    prefix.push('/');
    has_prefix(idv.as_slice(), prefix.as_slice())
}

fn rebase_all(v: &Vec<EntryId>, old: &str, new: &str) -> (r: Vec<EntryId>)
    ensures
        id_views(r@) == rebased_ids(id_views(v@), old@, new@),
{
    let mut r: Vec<EntryId> = Vec::new();
    let mut i: usize = 0;
    while i < v.len()
        invariant
            i <= v@.len(),
            id_views(r@) == rebased_ids(id_views(v@.take(i as int)), old@, new@),
        decreases v@.len() - i,
    {
        let id = rebase_id(v[i].as_str(), old, new);
        let ghost prev = r@;
        r.push(id);
        proof {
            assert(v@.take(i + 1) =~= v@.take(i as int).push(v@[i as int]));
            assert(id_views(r@) =~= id_views(prev).push(id@));
            assert(id_views(v@.take(i + 1)) =~= id_views(v@.take(i as int)).push(v@[i as int]@));
            assert(rebased_ids(id_views(v@.take(i + 1)), old@, new@) =~= rebased_ids(
                id_views(v@.take(i as int)),
                old@,
                new@,
            ).push(rebased_id(v@[i as int]@, old@, new@)));
        }
        i = i + 1;
    }
    proof {
        assert(v@.take(v@.len() as int) =~= v@);
    }
    r
}

fn retain_outside(v: &Vec<EntryId>, root: &str) -> (r: Vec<EntryId>)
    ensures
        id_views(r@) == ids_outside(id_views(v@), root@),
{
    let mut r: Vec<EntryId> = Vec::new();
    let mut i: usize = 0;
    while i < v.len()
        invariant
            i <= v@.len(),
            id_views(r@) == ids_outside(id_views(v@.take(i as int)), root@),
        decreases v@.len() - i,
    {
        let under = id_is_at_or_under(v[i].as_str(), root);
        proof {
            assert(v@.take(i + 1) =~= v@.take(i as int).push(v@[i as int]));
            assert(id_views(v@.take(i + 1)).drop_last() =~= id_views(v@.take(i as int)));
        }
        if !under {
            r.push(v[i].clone());
            proof {
                assert(id_views(r@) =~= id_views(r@.drop_last()).push(v@[i as int]@));
            }
        }
        i = i + 1;
    }
    proof {
        assert(v@.take(v@.len() as int) =~= v@);
    }
    r
}

impl NavigationState {
    /// A history with nothing behind or ahead.
    pub fn new() -> (s: Self)
        ensures
            s@.back == Seq::<Seq<char>>::empty(),
            s@.forward == Seq::<Seq<char>>::empty(),
    {
        let s = NavigationState { back: Vec::new(), forward: Vec::new() };
        proof {
            assert(s@.back =~= Seq::<Seq<char>>::empty());
            assert(s@.forward =~= Seq::<Seq<char>>::empty());
        }
        s
    }

    pub fn can_go_back(&self) -> (r: bool)
        ensures
            r == (self@.back.len() > 0),
    {
        self.back.len() > 0
    }

    pub fn can_go_forward(&self) -> (r: bool)
        ensures
            r == (self@.forward.len() > 0),
    {
        self.forward.len() > 0
    }

    /// Records that the user left `current` for another note.
    pub fn visit(&mut self, current: Option<&str>)
        ensures
            final(self)@ == visited(old(self)@, opt_view(current)),
    {
        if let Some(current) = current {
            self.back.push(owned(current));
            self.forward.clear();
            proof {
                assert(self@.back =~= old(self)@.back.push(current@));
                assert(self@.forward =~= Seq::<Seq<char>>::empty());
            }
        }
    }

    /// Steps back, remembering `current` for a later step forward.
    pub fn go_back(&mut self, current: Option<&str>) -> (r: Option<EntryId>)
        ensures
            (final(self)@, opt_string_view(r)) == stepped_back(old(self)@, opt_view(current)),
    {
        let target = match self.back.pop() {
            Some(t) => t,
            None => return None,
        };
        proof {
            assert(self@.back =~= old(self)@.back.drop_last());
        }
        if let Some(current) = current {
            self.forward.push(owned(current));
            proof {
                assert(self@.forward =~= old(self)@.forward.push(current@));
            }
        }
        Some(target)
    }

    /// Steps forward, remembering `current` for a later step back.
    pub fn go_forward(&mut self, current: Option<&str>) -> (r: Option<EntryId>)
        ensures
            (final(self)@, opt_string_view(r)) == stepped_forward(old(self)@, opt_view(current)),
    {
        let target = match self.forward.pop() {
            Some(t) => t,
            None => return None,
        };
        proof {
            assert(self@.forward =~= old(self)@.forward.drop_last());
        }
        if let Some(current) = current {
            self.back.push(owned(current));
            proof {
                assert(self@.back =~= old(self)@.back.push(current@));
            }
        }
        Some(target)
    }

    /// Renames every remembered id after the entry `old` became `new`.
    pub fn rebase(&mut self, from: &str, to: &str)
        ensures
            final(self)@.back == rebased_ids(old(self)@.back, from@, to@),
            final(self)@.forward == rebased_ids(old(self)@.forward, from@, to@),
    {
        let back = rebase_all(&self.back, from, to);
        let forward = rebase_all(&self.forward, from, to);
        self.back = back;
        self.forward = forward;
    }

    /// Forgets the entry `id` and everything beneath it.
    pub fn remove(&mut self, id: &str)
        ensures
            final(self)@.back == ids_outside(old(self)@.back, id@),
            final(self)@.forward == ids_outside(old(self)@.forward, id@),
    {
        let back = retain_outside(&self.back, id);
        let forward = retain_outside(&self.forward, id);
        self.back = back;
        self.forward = forward;
    }
}

impl Default for NavigationState {
    fn default() -> (s: Self)
        ensures
            s@.back == Seq::<Seq<char>>::empty(),
            s@.forward == Seq::<Seq<char>>::empty(),
    {
        Self::new()
    }
}

/// Visiting a note and then stepping back returns to the note that was open
/// before it.
pub proof fn law_back_returns_to_visited(h: History, previous: Seq<char>, current: Option<Seq<char>>)
    ensures
        stepped_back(visited(h, Some(previous)), current).1 == Some(previous),
        visited(h, Some(previous)).forward.len() == 0,
{
}

/// Stepping back from `current` and then forward from the note reached returns
/// exactly to `current` with the history as it was.
pub proof fn law_back_then_forward_restores(h: History, current: Seq<char>)
    requires
        h.back.len() > 0,
    ensures
        ({
            let (h2, target) = stepped_back(h, Some(current));
            stepped_forward(h2, target) == (h, Some(current))
        }),
{
    let (h2, target) = stepped_back(h, Some(current));
    assert(h2.back.push(target.unwrap()) =~= h.back);
    assert(h2.forward.drop_last() =~= h.forward);
}

/// Stepping forward from `current` and then back from the note reached returns
/// exactly to `current` with the history as it was.
pub proof fn law_forward_then_back_restores(h: History, current: Seq<char>)
    requires
        h.forward.len() > 0,
    ensures
        ({
            let (h2, target) = stepped_forward(h, Some(current));
            stepped_back(h2, target) == (h, Some(current))
        }),
{
    let (h2, target) = stepped_forward(h, Some(current));
    assert(h2.forward.push(target.unwrap()) =~= h.forward);
    assert(h2.back.drop_last() =~= h.back);
}

/// After `remove(root)` no remembered id is `root` or beneath it, and every id
/// outside `root` is kept.
pub proof fn law_remove_forgets_exactly_the_subtree(s: Seq<Seq<char>>, root: Seq<char>)
    ensures
        forall|i: int| 0 <= i < ids_outside(s, root).len() ==>
            !is_at_or_under(#[trigger] ids_outside(s, root)[i], root),
        forall|i: int| 0 <= i < s.len() && !is_at_or_under(#[trigger] s[i], root) ==>
            ids_outside(s, root).contains(s[i]),
        ids_outside(s, root).len() <= s.len(),
    decreases s.len(),
{
    if s.len() > 0 {
        law_remove_forgets_exactly_the_subtree(s.drop_last(), root);
        let rest = ids_outside(s.drop_last(), root);
        assert forall|i: int| 0 <= i < s.len() && !is_at_or_under(#[trigger] s[i], root) implies
            ids_outside(s, root).contains(s[i]) by {
            if i < s.len() - 1 {
                assert(s.drop_last()[i] == s[i]);
                let j = choose|j: int| 0 <= j < rest.len() && rest[j] == s[i];
                if !is_at_or_under(s.last(), root) {
                    assert(rest.push(s.last())[j] == s[i]);
                }
            } else {
                assert(rest.push(s.last())[rest.len() as int] == s[i]);
            }
        }
    }
}

/// Rebasing an entry onto its own id changes nothing.
pub proof fn law_rebase_onto_itself_is_identity(id: Seq<char>, old: Seq<char>)
    ensures
        rebased_id(id, old, old) == id,
{
    if id != old && starts_with(id, old.push('/')) {
        assert(old.push('/') + id.skip(old.len() + 1int) =~= id);
    }
}

/// An id moved from `old` to `new` and back from `new` to `old` is the id it was.
pub proof fn law_rebase_round_trip(id: Seq<char>, old: Seq<char>, new: Seq<char>)
    requires
        is_at_or_under(id, old),
    ensures
        rebased_id(rebased_id(id, old, new), new, old) == id,
{
    if id != old {
        let moved = new.push('/') + id.skip(old.len() + 1int);
        assert(moved.take(new.len() + 1int) =~= new.push('/'));
        assert(moved.skip(new.len() + 1int) =~= id.skip(old.len() + 1int));
        if moved == new {
            assert(moved.len() == new.len() + 1 + id.len() - old.len() - 1);
        }
        assert(old.push('/') + id.skip(old.len() + 1int) =~= id);
    }
}

/// The folder that holds the entry `id`: the text before its last `/`, or
/// the root (empty) when it has none.
pub open spec fn parent_of(id: Seq<char>) -> Seq<char> {
    match crate::text::rfind_char_before(id, '/', id.len() as int) {
        Some(i) => id.take(i),
        None => Seq::empty(),
    }
}

/// The folder that holds the entry `id`.
pub fn parent_id(id: &str) -> (r: EntryId)
    ensures
        r@ == parent_of(id@),
{
    let v = chars_of(id);
    proof {
        crate::text::lemma_rfind_char_before(v@, '/', v@.len() as int);
    }
    match crate::text::rfind_char_in(v.as_slice(), '/', v.len()) {
        Some(i) => {
            let r = crate::text::string_of_range(v.as_slice(), 0, i);
            proof {
                assert(v@.subrange(0, i as int) =~= v@.take(i as int));
            }
            r
        },
        None => String::new(),
    }
}

} // verus!
