//! How a directory listing becomes rows of the notes tree: children are
//! ordered by their lower-cased names (a stable sort, so equal keys keep
//! their listed order), hidden entries are left out, and each child is
//! taken as a folder to descend into, a note, an image asset, or nothing.
use vstd::prelude::*;
use crate::text::lowercase;

verus! {

/// `a` sorts no later than `b`: code point by code point, a prefix first.
/// This is the order of `String`, whose byte order is that of code points.
pub open spec fn key_le(a: Seq<char>, b: Seq<char>) -> bool
    decreases a.len(),
{
    if a.len() == 0 {
        true
    } else if b.len() == 0 {
        false
    } else if a[0] == b[0] {
        key_le(a.drop_first(), b.drop_first())
    } else {
        (a[0] as u32) < (b[0] as u32)
    }
}

/// Whether `a` sorts no later than `b`; see [`key_le`].
pub fn key_le_exec(a: &[char], b: &[char]) -> (r: bool)
    ensures
        r == key_le(a@, b@),
{
    let mut i: usize = 0;
    proof {
        assert(a@.skip(0) =~= a@);
        assert(b@.skip(0) =~= b@);
        assert(a@.take(0) =~= b@.take(0));
    }
    while i < a.len()
        invariant
            i <= a.len(),
            i <= b.len(),
            a@.take(i as int) == b@.take(i as int),
            key_le(a@, b@) == key_le(a@.skip(i as int), b@.skip(i as int)),
        decreases a.len() - i,
    {
        proof {
            assert(a@.skip(i as int).drop_first() =~= a@.skip(i + 1));
            assert(a@.skip(i as int)[0] == a@[i as int]);
        }
        if i >= b.len() {
            return false;
        }
        proof {
            assert(b@.skip(i as int).drop_first() =~= b@.skip(i + 1));
            assert(b@.skip(i as int)[0] == b@[i as int]);
        }
        if a[i] != b[i] {
            return (a[i] as u32) < (b[i] as u32);
        }
        proof {
            assert(a@.take(i + 1) =~= a@.take(i as int).push(a@[i as int]));
            assert(b@.take(i + 1) =~= b@.take(i as int).push(b@[i as int]));
        }
        i += 1;
    }
    true
}

/// `order` with `x` placed after the last position whose key sorts no later
/// than the key of `x`.
pub open spec fn inserted_by_key(order: Seq<int>, keys: Seq<Seq<char>>, x: int) -> Seq<int>
    decreases order.len(),
{
    if order.len() == 0 {
        seq![x]
    } else if key_le(keys[order.last()], keys[x]) {
        order.push(x)
    } else {
        inserted_by_key(order.drop_last(), keys, x).push(order.last())
    }
}

/// The positions of the first `n` keys in the order of a stable sort by key.
pub open spec fn stable_order(keys: Seq<Seq<char>>, n: nat) -> Seq<int>
    decreases n,
{
    if n == 0 {
        Seq::empty()
    } else {
        inserted_by_key(stable_order(keys, (n - 1) as nat), keys, n - 1)
    }
}

proof fn lemma_inserted_at(order: Seq<int>, keys: Seq<Seq<char>>, x: int, j: int)
    requires
        0 <= j <= order.len(),
        forall|k: int| j <= k < order.len() ==> !key_le(keys[order[k]], keys[x]),
        j == 0 || key_le(keys[order[j - 1]], keys[x]),
    ensures
        inserted_by_key(order, keys, x) == order.take(j).push(x) + order.skip(j),
    decreases order.len(),
{
    if order.len() == 0 {
        assert(order.take(j).push(x) + order.skip(j) =~= seq![x]);
    } else if j == order.len() {
        assert(order.take(j).push(x) + order.skip(j) =~= order.push(x));
    } else {
        let rest = order.drop_last();
        assert(!key_le(keys[order.last()], keys[x]));
        lemma_inserted_at(rest, keys, x, j);
        assert(rest.take(j).push(x) + rest.skip(j) + seq![order.last()] =~= order.take(j).push(x) + order.skip(j));
        assert(inserted_by_key(rest, keys, x).push(order.last()) =~= inserted_by_key(rest, keys, x) + seq![order.last()]);
    }
}

/// The positions of `keys` in the order of a stable sort by key.
pub fn sorted_order(keys: &Vec<Vec<char>>) -> (r: Vec<usize>)
    ensures
        r@.map_values(|i: usize| i as int) == stable_order(keys@.map_values(|k: Vec<char>| k@), keys@.len()),
{
    let ghost ks = keys@.map_values(|k: Vec<char>| k@);
    let mut order: Vec<usize> = Vec::new();
    let mut x: usize = 0;
    while x < keys.len()
        invariant
            x <= keys.len(),
            ks == keys@.map_values(|k: Vec<char>| k@),
            order@.map_values(|i: usize| i as int) == stable_order(ks, x as nat),
            forall|k: int| 0 <= k < order@.len() ==> order@[k] < x,
        decreases keys.len() - x,
    {
        let ghost before = order@.map_values(|i: usize| i as int);
        let mut j: usize = order.len();
        while j > 0 && !key_le_exec(keys[order[j - 1]].as_slice(), keys[x].as_slice())
            invariant
                j <= order.len(),
                x < keys.len(),
                ks == keys@.map_values(|k: Vec<char>| k@),
                before == order@.map_values(|i: usize| i as int),
                forall|k: int| 0 <= k < order@.len() ==> order@[k] < x,
                forall|k: int| j <= k < before.len() ==> !key_le(ks[before[k]], ks[x as int]),
            decreases j,
        {
            proof {
                assert(ks[before[j - 1]] == keys@[order@[j - 1] as int]@);
            }
            j -= 1;
        }
        proof {
            if j > 0 {
                assert(ks[before[j - 1]] == keys@[order@[j - 1] as int]@);
            }
            lemma_inserted_at(before, ks, x as int, j as int);
        }
        order.insert(j, x);
        proof {
            assert(order@.map_values(|i: usize| i as int) =~= before.take(j as int).push(x as int) + before.skip(j as int));
        }
        x += 1;
    }
    order
}

/// A child of a listed directory: its name and whether it is a folder or a
/// regular file.
#[derive(Clone, Debug)]
pub struct DirectoryChild {
    pub name: String,
    pub is_directory: bool,
    pub is_file: bool,
}

/// What a listed child is for the tree.
#[derive(Clone, Copy, PartialEq, Eq, Debug, Structural)]
pub enum ChildRole {
    /// A folder to list and descend into.
    Folder,
    /// A note (or, when assets are listed, an image asset).
    Item,
}

/// Which files a listing keeps.
#[derive(Clone, Copy, PartialEq, Eq, Debug, Structural)]
pub enum ListingKind {
    /// Markdown notes: regular files whose extension is `md` in any case.
    Notes,
    /// Image assets the preview can show; folders are descended into but
    /// are no rows themselves.
    Assets,
}

/// The role of a child, if it is listed: hidden names (starting with `.`)
/// are not; folders are; files are when they are notes or assets.
pub open spec fn child_role(name: Seq<char>, is_directory: bool, is_file: bool, kind: ListingKind) -> Option<ChildRole> {
    if name.len() > 0 && name[0] == '.' {
        None
    } else if is_directory {
        Some(ChildRole::Folder)
    } else if match kind {
        ListingKind::Notes => crate::workspace::is_markdown_note(name, is_file),
        ListingKind::Assets => is_file && crate::workspace::is_supported_asset_path(name),
    } {
        Some(ChildRole::Item)
    } else {
        None
    }
}

/// The listed children, in the order of a stable sort by lower-cased name,
/// each with its role; children without one are left out.
pub open spec fn listed(children: Seq<DirectoryChild>, kind: ListingKind) -> Seq<(int, ChildRole)> {
    let order = stable_order(children.map_values(|c: DirectoryChild| lowercase(c.name@)), children.len());
    kept_roles(order, children, kind)
}

/// The positions of `order` whose children have a role, with that role.
pub open spec fn kept_roles(order: Seq<int>, children: Seq<DirectoryChild>, kind: ListingKind) -> Seq<(int, ChildRole)>
    decreases order.len(),
{
    if order.len() == 0 {
        Seq::empty()
    } else {
        let rest = kept_roles(order.drop_last(), children, kind);
        let c = children[order.last()];
        match child_role(c.name@, c.is_directory, c.is_file, kind) {
            Some(role) => rest.push((order.last(), role)),
            None => rest,
        }
    }
}

/// The children of a listed directory to show, in order; see [`listed`].
/// Each comes as its position in `children` and its role.
pub fn listed_children(children: &Vec<DirectoryChild>, kind: ListingKind) -> (r: Vec<(usize, ChildRole)>)
    ensures
        r@.map_values(|p: (usize, ChildRole)| (p.0 as int, p.1)) == listed(children@, kind),
{
    let mut keys: Vec<Vec<char>> = Vec::new();
    let mut i: usize = 0;
    while i < children.len()
        invariant
            i <= children.len(),
            keys@.map_values(|k: Vec<char>| k@) == children@.take(i as int).map_values(|c: DirectoryChild| lowercase(c.name@)),
        decreases children.len() - i,
    {
        let lower = crate::text::to_lowercase(children[i].name.as_str());
        let ghost prev = keys@;
        keys.push(crate::text::chars_of(lower.as_str()));
        proof {
            assert(keys@.map_values(|k: Vec<char>| k@) =~= prev.map_values(|k: Vec<char>| k@).push(lowercase(children@[i as int].name@)));
            assert(children@.take(i + 1).map_values(|c: DirectoryChild| lowercase(c.name@))
                =~= children@.take(i as int).map_values(|c: DirectoryChild| lowercase(c.name@)).push(lowercase(children@[i as int].name@)));
        }
        i += 1;
    }
    proof {
        assert(children@.take(children@.len() as int) =~= children@);
    }
    let order = sorted_order(&keys);
    let ghost ord = order@.map_values(|i: usize| i as int);
    proof {
        lemma_stable_order_in_range(keys@.map_values(|k: Vec<char>| k@), keys@.len());
    }
    let mut out: Vec<(usize, ChildRole)> = Vec::new();
    let mut k: usize = 0;
    while k < order.len()
        invariant
            k <= order.len(),
            ord == order@.map_values(|i: usize| i as int),
            ord.len() == order@.len(),
            forall|j: int| 0 <= j < ord.len() ==> 0 <= #[trigger] ord[j] < children@.len(),
            out@.map_values(|p: (usize, ChildRole)| (p.0 as int, p.1)) == kept_roles(ord.take(k as int), children@, kind),
        decreases order.len() - k,
    {
        let index = order[k];
        proof {
            assert(ord[k as int] == index as int);
            assert(ord.take(k + 1).drop_last() =~= ord.take(k as int));
            assert(ord.take(k + 1).last() == index as int);
        }
        let c = &children[index];
        let role = child_role_of(c.name.as_str(), c.is_directory, c.is_file, kind);
        if let Some(role) = role {
            let ghost prev = out@;
            out.push((index, role));
            proof {
                assert(out@.map_values(|p: (usize, ChildRole)| (p.0 as int, p.1)) =~= prev.map_values(|p: (usize, ChildRole)| (p.0 as int, p.1)).push((index as int, role)));
            }
        }
        k += 1;
    }
    proof {
        assert(ord.take(ord.len() as int) =~= ord);
    }
    out
}

/// The role of a child; see [`child_role`].
pub fn child_role_of(name: &str, is_directory: bool, is_file: bool, kind: ListingKind) -> (r: Option<ChildRole>)
    ensures
        r == child_role(name@, is_directory, is_file, kind),
{
    let v = crate::text::chars_of(name);
    if v.len() > 0 && v[0] == '.' {
        return None;
    }
    if is_directory {
        return Some(ChildRole::Folder);
    }
    let keep = match kind {
        ListingKind::Notes => crate::workspace::is_markdown_path(name, is_file),
        ListingKind::Assets => is_file && crate::workspace::is_supported_asset(name),
    };
    if keep { Some(ChildRole::Item) } else { None }
}

/// Every position of a stable order is one of the keys.
pub proof fn lemma_stable_order_in_range(keys: Seq<Seq<char>>, n: nat)
    ensures
        stable_order(keys, n).len() == n,
        forall|j: int| 0 <= j < stable_order(keys, n).len() ==> 0 <= #[trigger] stable_order(keys, n)[j] < n,
    decreases n,
{
    if n > 0 {
        lemma_stable_order_in_range(keys, (n - 1) as nat);
        lemma_inserted_contents(stable_order(keys, (n - 1) as nat), keys, n - 1);
    }
}

proof fn lemma_inserted_contents(order: Seq<int>, keys: Seq<Seq<char>>, x: int)
    ensures
        inserted_by_key(order, keys, x).len() == order.len() + 1,
        forall|j: int| 0 <= j < inserted_by_key(order, keys, x).len() ==>
            (#[trigger] inserted_by_key(order, keys, x)[j] == x || order.contains(inserted_by_key(order, keys, x)[j])),
    decreases order.len(),
{
    if order.len() > 0 && !key_le(keys[order.last()], keys[x]) {
        lemma_inserted_contents(order.drop_last(), keys, x);
        let r = inserted_by_key(order, keys, x);
        let r0 = inserted_by_key(order.drop_last(), keys, x);
        assert forall|j: int| 0 <= j < r.len() implies (#[trigger] r[j] == x || order.contains(r[j])) by {
            if j < r0.len() {
                assert(r[j] == r0[j]);
                if r0[j] != x {
                    let k = choose|k: int| 0 <= k < order.drop_last().len() && order.drop_last()[k] == r0[j];
                    assert(order[k] == r0[j]);
                }
            } else {
                assert(r[j] == order.last());
                assert(order[order.len() - 1] == r[j]);
            }
        }
    } else if order.len() > 0 {
        let r = inserted_by_key(order, keys, x);
        assert forall|j: int| 0 <= j < r.len() implies (#[trigger] r[j] == x || order.contains(r[j])) by {
            if j < order.len() {
                assert(r[j] == order[j]);
            }
        }
    }
}

/// `key_le` is total.
pub proof fn lemma_key_le_total(a: Seq<char>, b: Seq<char>)
    ensures
        key_le(a, b) || key_le(b, a),
    decreases a.len(),
{
    if a.len() > 0 && b.len() > 0 {
        if a[0] == b[0] {
            lemma_key_le_total(a.drop_first(), b.drop_first());
        } else {
            vstd::utf8::char_u32_cast(a[0], a[0] as u32);
            vstd::utf8::char_u32_cast(b[0], b[0] as u32);
        }
    }
}

/// `key_le` is transitive.
pub proof fn lemma_key_le_transitive(a: Seq<char>, b: Seq<char>, c: Seq<char>)
    requires
        key_le(a, b),
        key_le(b, c),
    ensures
        key_le(a, c),
    decreases a.len(),
{
    if a.len() > 0 && b.len() > 0 && c.len() > 0 {
        if a[0] == b[0] && b[0] == c[0] {
            lemma_key_le_transitive(a.drop_first(), b.drop_first(), c.drop_first());
        }
    }
}

/// Inserting places `x` somewhere in `order`, keeping the rest in order.
proof fn lemma_inserted_somewhere(order: Seq<int>, keys: Seq<Seq<char>>, x: int)
    ensures
        exists|j: int| 0 <= j <= order.len() && inserted_by_key(order, keys, x) == order.take(j).push(x) + order.skip(j),
    decreases order.len(),
{
    if order.len() == 0 {
        assert(inserted_by_key(order, keys, x) =~= order.take(0).push(x) + order.skip(0));
    } else if key_le(keys[order.last()], keys[x]) {
        let n = order.len() as int;
        assert(inserted_by_key(order, keys, x) =~= order.take(n).push(x) + order.skip(n));
    } else {
        let rest = order.drop_last();
        lemma_inserted_somewhere(rest, keys, x);
        let j = choose|j: int| 0 <= j <= rest.len() && inserted_by_key(rest, keys, x) == rest.take(j).push(x) + rest.skip(j);
        assert(inserted_by_key(order, keys, x) =~= order.take(j).push(x) + order.skip(j));
    }
}

/// Inserting into an order sorted by key keeps it sorted, and every key
/// equivalent to that of `x` ends up before `x`.
proof fn lemma_inserted_sorted(order: Seq<int>, keys: Seq<Seq<char>>, x: int)
    requires
        forall|i: int, j: int| 0 <= i < j < order.len() ==> key_le(keys[order[i]], keys[order[j]]),
    ensures
        ({
            let r = inserted_by_key(order, keys, x);
            forall|i: int, j: int| 0 <= i < j < r.len() ==> key_le(keys[r[i]], keys[r[j]])
        }),
    decreases order.len(),
{
    if order.len() == 0 {
    } else if key_le(keys[order.last()], keys[x]) {
        let r = order.push(x);
        assert forall|i: int, j: int| 0 <= i < j < r.len() implies key_le(keys[r[i]], keys[r[j]]) by {
            if j == r.len() - 1 && i < order.len() - 1 {
                lemma_key_le_transitive(keys[order[i]], keys[order.last()], keys[x]);
            }
        }
    } else {
        let rest = order.drop_last();
        lemma_inserted_sorted(rest, keys, x);
        lemma_inserted_contents(rest, keys, x);
        lemma_key_le_total(keys[order.last()], keys[x]);
        let r0 = inserted_by_key(rest, keys, x);
        let r = r0.push(order.last());
        assert forall|i: int, j: int| 0 <= i < j < r.len() implies key_le(keys[r[i]], keys[r[j]]) by {
            if j == r.len() - 1 {
                assert(r[i] == r0[i]);
                if r0[i] != x {
                    let k = choose|k: int| 0 <= k < rest.len() && rest[k] == r0[i];
                    assert(order[k] == rest[k]);
                    assert(k < order.len() - 1);
                }
            }
        }
    }
}

/// The stable order sorts by key, lists every position exactly once, and
/// keeps positions with equivalent keys in their original order.
pub proof fn law_stable_order_sorts(keys: Seq<Seq<char>>, n: nat)
    ensures
        ({
            let o = stable_order(keys, n);
            &&& o.len() == n
            &&& forall|i: int, j: int| 0 <= i < j < o.len() ==> key_le(keys[o[i]], keys[o[j]])
            &&& forall|i: int| 0 <= i < o.len() ==> 0 <= #[trigger] o[i] < n
            &&& forall|i: int, j: int| 0 <= i < j < o.len() ==> o[i] != o[j]
            &&& forall|i: int, j: int| 0 <= i < j < o.len() && key_le(keys[o[j]], keys[o[i]]) ==> o[i] < o[j]
        }),
    decreases n,
{
    lemma_stable_order_in_range(keys, n);
    if n > 0 {
        let m = (n - 1) as nat;
        law_stable_order_sorts(keys, m);
        let prev = stable_order(keys, m);
        let x = n - 1;
        lemma_inserted_sorted(prev, keys, x);
        lemma_inserted_somewhere(prev, keys, x);
        let j = choose|j: int| 0 <= j <= prev.len() && inserted_by_key(prev, keys, x) == prev.take(j).push(x) + prev.skip(j);
        let o = stable_order(keys, n);
        assert(o == prev.take(j).push(x) + prev.skip(j));
        assert forall|a: int| 0 <= a < o.len() implies #[trigger] o[a] == (if a < j { prev[a] } else if a == j { x } else { prev[a - 1] }) by {
        }
        assert forall|a: int, b: int| 0 <= a < b < o.len() implies o[a] != o[b] by {
            if a < j && b < j {
            } else if a < j && b == j {
                assert(prev[a] < m);
            } else if a < j {
                assert(o[b] == prev[b - 1]);
            } else if a == j {
                assert(o[b] == prev[b - 1] && prev[b - 1] < m);
            } else {
                assert(o[a] == prev[a - 1] && o[b] == prev[b - 1]);
            }
        }
        // Positions after `x` hold keys that do not sort before the key of `x`.
        lemma_inserted_after(prev, keys, x, j);
        assert forall|a: int, b: int| 0 <= a < b < o.len() && key_le(keys[o[b]], keys[o[a]]) implies o[a] < o[b] by {
            if a < j && b < j {
            } else if a < j && b == j {
                assert(prev[a] < m);
            } else if a < j {
                assert(o[a] == prev[a] && o[b] == prev[b - 1]);
            } else if a == j {
                assert(o[b] == prev[b - 1]);
                assert(!key_le(keys[prev[b - 1]], keys[x]));
            } else {
                assert(o[a] == prev[a - 1] && o[b] == prev[b - 1]);
            }
        }
    }
}

/// Every position after the one where `x` is inserted holds a key that does
/// not sort before the key of `x`.
proof fn lemma_inserted_after(order: Seq<int>, keys: Seq<Seq<char>>, x: int, j: int)
    requires
        forall|k: int| 0 <= k < order.len() ==> order[k] != x,
        0 <= j <= order.len(),
        inserted_by_key(order, keys, x) == order.take(j).push(x) + order.skip(j),
    ensures
        forall|k: int| j <= k < order.len() ==> !key_le(keys[#[trigger] order[k]], keys[x]),
    decreases order.len(),
{
    let r = inserted_by_key(order, keys, x);
    if order.len() == 0 {
    } else if key_le(keys[order.last()], keys[x]) {
        assert(r == order.push(x));
        if j < order.len() {
            assert(r[j] == x);
            assert((order.take(j).push(x) + order.skip(j))[j] == x);
            assert(order.push(x)[j] == order[j]);
            assert(false);
        }
    } else {
        let rest = order.drop_last();
        let r0 = inserted_by_key(rest, keys, x);
        assert(r == r0.push(order.last()));
        if j == order.len() {
            assert(r[order.len() as int] == x);
            assert(r0.push(order.last())[order.len() as int] == order.last());
            assert(order[order.len() - 1] != x);
            assert(false);
        } else {
            assert(r0 =~= r.drop_last());
            assert(r.drop_last() =~= rest.take(j).push(x) + rest.skip(j));
            lemma_inserted_after(rest, keys, x, j);
            assert forall|k: int| j <= k < order.len() implies !key_le(keys[#[trigger] order[k]], keys[x]) by {
                if k < rest.len() {
                    assert(order[k] == rest[k]);
                }
            }
        }
    }
}

/// A listing never shows a hidden child (one whose name starts with `.`).
pub proof fn law_hidden_children_are_not_listed(children: Seq<DirectoryChild>, kind: ListingKind)
    ensures
        forall|k: int| 0 <= k < listed(children, kind).len() ==> ({
            let name = children[#[trigger] listed(children, kind)[k].0].name@;
            !(name.len() > 0 && name[0] == '.')
        }),
{
    let order = stable_order(children.map_values(|c: DirectoryChild| lowercase(c.name@)), children.len());
    lemma_kept_roles_have_roles(order, children, kind);
}

proof fn lemma_kept_roles_have_roles(order: Seq<int>, children: Seq<DirectoryChild>, kind: ListingKind)
    ensures
        forall|k: int| 0 <= k < kept_roles(order, children, kind).len() ==> ({
            let c = children[#[trigger] kept_roles(order, children, kind)[k].0];
            child_role(c.name@, c.is_directory, c.is_file, kind) == Some(kept_roles(order, children, kind)[k].1)
        }),
    decreases order.len(),
{
    if order.len() > 0 {
        lemma_kept_roles_have_roles(order.drop_last(), children, kind);
    }
}


/// `a` comes before `b` in a stable order by `keys`: its key is no later, and
/// with keys that sort alike, it was listed first.
pub open spec fn stably_before(keys: Seq<Seq<char>>, a: int, b: int) -> bool {
    key_le(keys[a], keys[b]) && (key_le(keys[b], keys[a]) ==> a < b)
}

proof fn lemma_kept_keeps_order(order: Seq<int>, children: Seq<DirectoryChild>, kind: ListingKind, keys: Seq<Seq<char>>)
    requires
        forall|i: int, j: int| 0 <= i < j < order.len() ==> stably_before(keys, #[trigger] order[i], #[trigger] order[j]),
    ensures
        forall|i: int| 0 <= i < kept_roles(order, children, kind).len() ==> exists|m: int|
            0 <= m < order.len() && order[m] == (#[trigger] kept_roles(order, children, kind)[i]).0,
        forall|i: int, j: int| 0 <= i < j < kept_roles(order, children, kind).len() ==> stably_before(
            keys,
            (#[trigger] kept_roles(order, children, kind)[i]).0,
            (#[trigger] kept_roles(order, children, kind)[j]).0,
        ),
    decreases order.len(),
{
    if order.len() > 0 {
        let front = order.drop_last();
        assert forall|i: int, j: int| 0 <= i < j < front.len() implies stably_before(keys, #[trigger] front[i], #[trigger] front[j]) by {
            assert(front[i] == order[i] && front[j] == order[j]);
        }
        lemma_kept_keeps_order(front, children, kind, keys);
        let rest = kept_roles(front, children, kind);
        let l = kept_roles(order, children, kind);
        let last = order.last();
        assert forall|i: int| 0 <= i < rest.len() implies stably_before(keys, (#[trigger] rest[i]).0, last) by {
            let m = choose|m: int| 0 <= m < front.len() && front[m] == rest[i].0;
            assert(order[m] == rest[i].0);
            assert(stably_before(keys, order[m], order[order.len() - 1]));
        }
        assert forall|i: int| 0 <= i < l.len() implies exists|m: int|
            0 <= m < order.len() && order[m] == (#[trigger] l[i]).0 by {
            if i < rest.len() {
                assert(l[i] == rest[i]);
                let m = choose|m: int| 0 <= m < front.len() && front[m] == rest[i].0;
                assert(order[m] == l[i].0);
            } else {
                assert(order[order.len() - 1] == l[i].0);
            }
        }
        assert forall|i: int, j: int| 0 <= i < j < l.len() implies stably_before(
            keys,
            (#[trigger] l[i]).0,
            (#[trigger] l[j]).0,
        ) by {
            if j < rest.len() {
                assert(l[i] == rest[i] && l[j] == rest[j]);
            } else {
                assert(l[i] == rest[i]);
                assert(l[j].0 == last);
            }
        }
    }
}

/// A listing is sorted by lower-cased name: each listed child's lower-cased
/// name sorts no later than that of any child listed after it, children whose
/// lower-cased names are equal keep the order in which the directory listed
/// them, and every row is a child of the directory.
pub proof fn law_listing_sorts_by_lowercased_name(children: Seq<DirectoryChild>, kind: ListingKind)
    ensures
        forall|i: int| 0 <= i < listed(children, kind).len() ==> 0 <= (#[trigger] listed(children, kind)[i]).0 < children.len(),
        forall|i: int, j: int| 0 <= i < j < listed(children, kind).len() ==> key_le(
            lowercase(children[(#[trigger] listed(children, kind)[i]).0].name@),
            lowercase(children[(#[trigger] listed(children, kind)[j]).0].name@),
        ),
        forall|i: int, j: int| 0 <= i < j < listed(children, kind).len() && lowercase(
            children[(#[trigger] listed(children, kind)[i]).0].name@,
        ) == lowercase(children[(#[trigger] listed(children, kind)[j]).0].name@) ==> listed(children, kind)[i].0
            < listed(children, kind)[j].0,
{
    let keys = children.map_values(|c: DirectoryChild| lowercase(c.name@));
    let n = children.len();
    let o = stable_order(keys, n);
    law_stable_order_sorts(keys, n);
    assert forall|i: int, j: int| 0 <= i < j < o.len() implies stably_before(keys, #[trigger] o[i], #[trigger] o[j]) by {
    }
    lemma_kept_keeps_order(o, children, kind, keys);
    let l = listed(children, kind);
    assert forall|i: int| 0 <= i < l.len() implies 0 <= (#[trigger] l[i]).0 < children.len() by {
        let m = choose|m: int| 0 <= m < o.len() && o[m] == l[i].0;
    }
    assert forall|i: int, j: int| 0 <= i < j < l.len() implies key_le(
        lowercase(children[(#[trigger] l[i]).0].name@),
        lowercase(children[(#[trigger] l[j]).0].name@),
    ) && (lowercase(children[l[i].0].name@) == lowercase(children[l[j].0].name@) ==> l[i].0 < l[j].0) by {
        let mi = choose|m: int| 0 <= m < o.len() && o[m] == l[i].0;
        let mj = choose|m: int| 0 <= m < o.len() && o[m] == l[j].0;
        assert(stably_before(keys, l[i].0, l[j].0));
        assert(keys[l[i].0] == lowercase(children[l[i].0].name@));
        assert(keys[l[j].0] == lowercase(children[l[j].0].name@));
        lemma_key_le_total(keys[l[j].0], keys[l[i].0]);
    }
}
} // verus!
