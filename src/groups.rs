use vstd::prelude::*;
use crate::module_graph::ModuleId;

verus! {

/// Client-reference modules grouped by the server component that owns them,
/// keys in order of first insertion.
pub type Groups = Vec<(Option<ModuleId>, Vec<ModuleId>)>;

pub open spec fn groups_view(v: Seq<(Option<ModuleId>, Vec<ModuleId>)>) -> Seq<
    (Option<ModuleId>, Seq<ModuleId>),
> {
    Seq::new(v.len(), |i: int| (v[i].0, v[i].1@))
}

pub open spec fn keys_unique(gs: Seq<(Option<ModuleId>, Seq<ModuleId>)>) -> bool {
    forall|i: int, j: int| 0 <= i < j < gs.len() ==> gs[i].0 != gs[j].0
}

pub open spec fn has_key(gs: Seq<(Option<ModuleId>, Seq<ModuleId>)>, k: Option<ModuleId>) -> bool {
    exists|i: int| 0 <= i < gs.len() && #[trigger] gs[i].0 == k
}

pub open spec fn key_index(gs: Seq<(Option<ModuleId>, Seq<ModuleId>)>, k: Option<ModuleId>) -> int {
    choose|i: int| 0 <= i < gs.len() && #[trigger] gs[i].0 == k
}

/// The modules listed under key `k` (empty where `k` is absent).
pub open spec fn group_of(gs: Seq<(Option<ModuleId>, Seq<ModuleId>)>, k: Option<ModuleId>) -> Seq<
    ModuleId,
> {
    if has_key(gs, k) {
        gs[key_index(gs, k)].1
    } else {
        Seq::empty()
    }
}

/// Appends `vals` to the list under `k`, adding `k` at the end if absent.
pub open spec fn add_to_group(
    gs: Seq<(Option<ModuleId>, Seq<ModuleId>)>,
    k: Option<ModuleId>,
    vals: Seq<ModuleId>,
) -> Seq<(Option<ModuleId>, Seq<ModuleId>)> {
    if has_key(gs, k) {
        gs.update(key_index(gs, k), (k, gs[key_index(gs, k)].1 + vals))
    } else {
        gs.push((k, vals))
    }
}

/// Appends, key by key in order, every list of `b` to `a`.
pub open spec fn merge_groups(
    a: Seq<(Option<ModuleId>, Seq<ModuleId>)>,
    b: Seq<(Option<ModuleId>, Seq<ModuleId>)>,
) -> Seq<(Option<ModuleId>, Seq<ModuleId>)>
    decreases b.len(),
{
    if b.len() == 0 {
        a
    } else {
        add_to_group(merge_groups(a, b.drop_last()), b.last().0, b.last().1)
    }
}

/// Appends every element of `src` to `dst`.
pub fn extend_copy<T: Copy>(dst: &mut Vec<T>, src: &Vec<T>)
    ensures
        final(dst)@ == old(dst)@ + src@,
{
    let mut i: usize = 0;
    while i < src.len()
        invariant
            0 <= i <= src.len(),
            dst@ == old(dst)@ + src@.take(i as int),
        decreases src.len() - i,
    {
        dst.push(src[i]);
        i = i + 1;
        assert(src@.take(i as int) == src@.take(i - 1).push(src@[i - 1]));
    }
    assert(src@.take(src.len() as int) =~= src@);
}

/// Appends `vals` to the list under `k`, adding `k` at the end if absent.
pub fn add_to_group_exec(groups: &mut Groups, k: Option<ModuleId>, vals: &Vec<ModuleId>)
    requires
        keys_unique(groups_view(old(groups)@)),
    ensures
        groups_view(final(groups)@) == add_to_group(groups_view(old(groups)@), k, vals@),
        keys_unique(groups_view(final(groups)@)),
{
    let ghost gv = groups_view(groups@);
    let mut i: usize = 0;
    while i < groups.len()
        invariant
            0 <= i <= groups.len(),
            gv == groups_view(groups@),
            groups@ == old(groups)@,
            keys_unique(gv),
            forall|j: int| 0 <= j < i ==> gv[j].0 != k,
        decreases groups.len() - i,
    {
        let same = match (groups[i].0, k) {
            (Some(x), Some(y)) => x == y,
            (None, None) => true,
            _ => false,
        };
        if same {
            proof {
                assert(gv[i as int].0 == k);
                assert(has_key(gv, k));
                let c = key_index(gv, k);
                assert(c == i);
            }
            let mut nv: Vec<ModuleId> = Vec::new();
            extend_copy(&mut nv, &groups[i].1);
            extend_copy(&mut nv, vals);
            groups.set(i, (k, nv));
            proof {
                assert(groups_view(groups@) =~= add_to_group(gv, k, vals@));
            }
            return;
        }
        i = i + 1;
    }
    proof {
        assert(!has_key(gv, k));
    }
    let mut nv: Vec<ModuleId> = Vec::new();
    extend_copy(&mut nv, vals);
    groups.push((k, nv));
    assert(groups_view(groups@) =~= add_to_group(gv, k, vals@));
}

/// Appends, key by key in order, every list of `other` to `groups`.
pub fn merge_groups_exec(groups: &mut Groups, other: &Groups)
    requires
        keys_unique(groups_view(old(groups)@)),
    ensures
        groups_view(final(groups)@) == merge_groups(
            groups_view(old(groups)@),
            groups_view(other@),
        ),
        keys_unique(groups_view(final(groups)@)),
{
    let mut i: usize = 0;
    while i < other.len()
        invariant
            0 <= i <= other.len(),
            keys_unique(groups_view(groups@)),
            groups_view(groups@) == merge_groups(
                groups_view(old(groups)@),
                groups_view(other@).take(i as int),
            ),
        decreases other.len() - i,
    {
        proof {
            let t = groups_view(other@).take(i + 1);
            assert(t.drop_last() =~= groups_view(other@).take(i as int));
            assert(t.last() == groups_view(other@)[i as int]);
        }
        add_to_group_exec(groups, other[i].0, &other[i].1);
        i = i + 1;
    }
    assert(groups_view(other@).take(other.len() as int) =~= groups_view(other@));
}

} // verus!
