//! Groups the factor tensors of an adapter file by the module they belong to, in key order.
use crate::text::{
    comes_before, increasing, lemma_precedes_total, lemma_precedes_transitive, precedes, same,
};
use vstd::prelude::*;
use vstd::string::*;

verus! {

/// How many kinds of factor a module can have.
pub const SLOTS: usize = 8;

/// The module and the factor kind of a tensor.
pub type Mark = Option<(String, usize)>;

/// The characters of each mark's module.
pub open spec fn marks(v: Seq<Mark>) -> Seq<Option<(Seq<char>, int)>> {
    v.map_values(
        |m: Mark|
            match m {
                Some((s, k)) => Some((s@, k as int)),
                None => None,
            },
    )
}

/// The mark is of module `x`.
pub open spec fn belongs(mark: Option<(Seq<char>, int)>, x: Seq<char>) -> bool {
    mark matches Some((s, _)) && s == x
}

/// The first position from `p` on whose module does not come before `s`.
pub open spec fn place_from(stems: Seq<Seq<char>>, s: Seq<char>, p: int) -> int
    decreases stems.len() - p,
{
    if 0 <= p < stems.len() && precedes(stems[p], s) {
        place_from(stems, s, p + 1)
    } else {
        p
    }
}

/// The modules with `s` among them, in order and once.
pub open spec fn with_stem(stems: Seq<Seq<char>>, s: Seq<char>) -> Seq<Seq<char>> {
    let p = place_from(stems, s, 0);
    if p < stems.len() && stems[p] == s {
        stems
    } else {
        stems.insert(p, s)
    }
}

/// The modules of the first `k` tensors, in key order.
pub open spec fn stem_list(m: Seq<Option<(Seq<char>, int)>>, k: int) -> Seq<Seq<char>>
    decreases k,
{
    if k <= 0 {
        Seq::empty()
    } else {
        match m[k - 1] {
            Some((s, _)) => with_stem(stem_list(m, k - 1), s),
            None => stem_list(m, k - 1),
        }
    }
}

/// The last of the first `k` tensors that is the factor `slot` of module `stem`.
pub open spec fn slot_of(
    m: Seq<Option<(Seq<char>, int)>>,
    stem: Seq<char>,
    slot: int,
    k: int,
) -> Option<int>
    decreases k,
{
    if k <= 0 {
        None
    } else if m[k - 1] == Some((stem, slot)) {
        Some(k - 1)
    } else {
        slot_of(m, stem, slot, k - 1)
    }
}

/// How many of the first `k` tensors are no factor of any module.
pub open spec fn unmarked(m: Seq<Option<(Seq<char>, int)>>, k: int) -> int
    decreases k,
{
    if k <= 0 {
        0
    } else {
        unmarked(m, k - 1) + if m[k - 1] is None {
            1int
        } else {
            0int
        }
    }
}

/// The factors of one module, by the positions of their tensors.
#[derive(Clone, Debug)]
pub struct Group {
    pub stem: String,
    pub slots: Vec<Option<usize>>,
}

/// The modules of the groups.
pub open spec fn stems(g: Seq<Group>) -> Seq<Seq<char>> {
    g.map_values(|x: Group| x.stem@)
}

impl Group {
    /// The group holds the factors that its module has among the first `k` tensors.
    pub open spec fn holds(&self, m: Seq<Option<(Seq<char>, int)>>, k: int) -> bool {
        &&& self.slots.len() == SLOTS
        &&& forall|s: int|
            0 <= s < SLOTS ==> {
                match #[trigger] self.slots[s] {
                    Some(i) => i < k && slot_of(m, self.stem@, s, k) == Some(i as int),
                    None => slot_of(m, self.stem@, s, k) is None,
                }
            }
    }
}

proof fn lemma_place(stems: Seq<Seq<char>>, s: Seq<char>, p: int)
    requires
        0 <= p <= stems.len(),
        forall|j: int| 0 <= j < p ==> precedes(#[trigger] stems[j], s),
    ensures
        p <= place_from(stems, s, p) <= stems.len(),
        forall|j: int| 0 <= j < place_from(stems, s, p) ==> precedes(#[trigger] stems[j], s),
        place_from(stems, s, p) < stems.len() ==> !precedes(stems[place_from(stems, s, p)], s),
    decreases stems.len() - p,
{
    if p < stems.len() && precedes(stems[p], s) {
        lemma_place(stems, s, p + 1);
    }
}

/// Inserting keeps the order, adds `s` and nothing else.
proof fn lemma_with_stem(stems: Seq<Seq<char>>, s: Seq<char>)
    requires
        increasing(stems),
    ensures
        increasing(with_stem(stems, s)),
        forall|x: Seq<char>|
            #[trigger] with_stem(stems, s).contains(x) <==> stems.contains(x) || x == s,
        ({
            let p = place_from(stems, s, 0);
            &&& 0 <= p <= stems.len()
            &&& stems.contains(s) <==> (p < stems.len() && stems[p] == s)
        }),
{
    lemma_place(stems, s, 0);
    let p = place_from(stems, s, 0);
    let after = with_stem(stems, s);
    if p < stems.len() {
        lemma_precedes_total(stems[p], s);
    }
    assert forall|j: int| p < j < stems.len() implies precedes(s, #[trigger] stems[j]) by {
        assert(precedes(stems[p], stems[j]));
        if stems[p] != s {
            lemma_precedes_transitive(s, stems[p], stems[j]);
        }
    }
    assert forall|j: int| 0 <= j < stems.len() && stems[j] == s implies j == p by {
        lemma_precedes_total(s, s);
        if j < p {
            assert(precedes(stems[j], s));
        }
    }
    if p < stems.len() && stems[p] == s {
        assert(stems.contains(s));
    } else {
        assert forall|i: int, j: int| 0 <= i < j < after.len() implies precedes(
            #[trigger] after[i],
            #[trigger] after[j],
        ) by {
            if i < p && j == p {
                assert(precedes(stems[i], s));
            } else if i == p {
                assert(after[j] == stems[j - 1]);
                if j - 1 == p {
                    assert(precedes(s, stems[p]));
                }
            }
        }
        assert(after[p] == s);
        assert forall|x: Seq<char>| #[trigger] after.contains(x) <==> stems.contains(x) || x
            == s by {
            if stems.contains(x) {
                let i = choose|i: int| 0 <= i < stems.len() && stems[i] == x;
                assert(after[if i < p {
                    i
                } else {
                    i + 1
                }] == x);
            }
            if after.contains(x) {
                let i = choose|i: int| 0 <= i < after.len() && after[i] == x;
                if i < p {
                    assert(stems[i] == x);
                } else if i > p {
                    assert(stems[i - 1] == x);
                }
            }
        }
    }
}

/// The module list is in strictly increasing key order and holds exactly the modules that some
/// tensor belongs to.
pub proof fn law_stem_list(m: Seq<Option<(Seq<char>, int)>>, k: int)
    requires
        0 <= k <= m.len(),
    ensures
        increasing(stem_list(m, k)),
        stem_list(m, k).len() + unmarked(m, k) <= k,
        forall|x: Seq<char>|
            #[trigger] stem_list(m, k).contains(x) <==> exists|i: int|
                0 <= i < k && belongs(#[trigger] m[i], x),
    decreases k,
{
    if k > 0 {
        law_stem_list(m, k - 1);
        let before = stem_list(m, k - 1);
        match m[k - 1] {
            Some((s, t)) => {
                lemma_with_stem(before, s);
                assert forall|x: Seq<char>| #[trigger] stem_list(m, k).contains(x) <==> exists|i: int|
                    0 <= i < k && belongs(#[trigger] m[i], x) by {
                    if before.contains(x) {
                        let i = choose|i: int|
                            0 <= i < k - 1 && belongs(#[trigger] m[i], x);
                        assert(0 <= i < k && belongs(m[i], x));
                    }
                    if x == s {
                        assert(belongs(m[k - 1], x));
                    }
                }
            },
            None => {
                assert forall|x: Seq<char>| #[trigger] stem_list(m, k).contains(x) <==> exists|i: int|
                    0 <= i < k && belongs(#[trigger] m[i], x) by {
                    if before.contains(x) {
                        let i = choose|i: int|
                            0 <= i < k - 1 && belongs(#[trigger] m[i], x);
                        assert(0 <= i < k && belongs(m[i], x));
                    }
                }
            },
        }
    }
}

/// A module that is not listed has no factor yet.
proof fn lemma_unlisted(m: Seq<Option<(Seq<char>, int)>>, stem: Seq<char>, slot: int, k: int)
    requires
        0 <= k <= m.len(),
        !stem_list(m, k).contains(stem),
    ensures
        slot_of(m, stem, slot, k) is None,
    decreases k,
{
    if k > 0 {
        law_stem_list(m, k);
        law_stem_list(m, k - 1);
        if belongs(m[k - 1], stem) {
            assert(stem_list(m, k).contains(stem));
        }
        if stem_list(m, k - 1).contains(stem) {
            let i = choose|i: int| 0 <= i < k - 1 && belongs(#[trigger] m[i], stem);
            assert(0 <= i < k && belongs(m[i], stem));
        }
        lemma_unlisted(m, stem, slot, k - 1);
    }
}

/// Groups marked tensors by module.
pub fn group(v: &Vec<Mark>) -> (r: (Vec<Group>, usize))
    requires
        forall|i: int| 0 <= i < v.len() ==> ((#[trigger] v[i]) matches Some((_, s)) ==> s < SLOTS),
    ensures
        stems(r.0@) == stem_list(marks(v@), v.len() as int),
        forall|g: int| 0 <= g < r.0.len() ==> (#[trigger] r.0[g]).holds(marks(v@), v.len() as int),
        r.1 == unmarked(marks(v@), v.len() as int),
        r.0.len() + r.1 <= v.len(),
{
    let ghost m = marks(v@);
    let mut groups: Vec<Group> = Vec::new();
    let mut rest: usize = 0;
    let mut k: usize = 0;
    proof {
        assert(stems(groups@) =~= Seq::<Seq<char>>::empty());
    }
    while k < v.len()
        invariant
            k <= v.len(),
            m == marks(v@),
            forall|i: int|
                0 <= i < v.len() ==> ((#[trigger] v[i]) matches Some((_, s)) ==> s < SLOTS),
            stems(groups@) == stem_list(m, k as int),
            forall|g: int| 0 <= g < groups.len() ==> (#[trigger] groups[g]).holds(m, k as int),
            rest == unmarked(m, k as int),
            rest <= k,
        decreases v.len() - k,
    {
        let ghost old_stems = stems(groups@);
        match &v[k] {
            None => {
                rest += 1;
                proof {
                    assert(m[k as int] is None);
                    assert forall|g: int| 0 <= g < groups.len() implies (
                    #[trigger] groups[g]).holds(m, k + 1) by {
                        assert(groups[g].holds(m, k as int));
                    }
                }
            },
            Some((stem, slot)) => {
                proof {
                    assert(m[k as int] == Some((stem@, *slot as int)));
                    law_stem_list(m, k as int);
                    lemma_with_stem(old_stems, stem@);
                    assert(place_from(old_stems, stem@, 0) == place_from(old_stems, stem@, 0));
                }
                let mut p: usize = 0;
                while p < groups.len() && comes_before(groups[p].stem.as_str(), stem.as_str())
                    invariant
                        p <= groups.len(),
                        old_stems == stems(groups@),
                        place_from(old_stems, stem@, 0) == place_from(old_stems, stem@, p as int),
                    decreases groups.len() - p,
                {
                    proof {
                        assert(old_stems[p as int] == groups[p as int].stem@);
                    }
                    p += 1;
                }
                proof {
                    if p < groups.len() {
                        assert(old_stems[p as int] == groups[p as int].stem@);
                    }
                    assert(place_from(old_stems, stem@, 0) == p);
                }
                if p < groups.len() && same(groups[p].stem.as_str(), stem.as_str()) {
                    let ghost before = groups@;
                    let mut g = groups.remove(p);
                    g.slots.set(*slot, Some(k));
                    groups.insert(p, g);
                    proof {
                        assert(stems(groups@) =~= old_stems);
                        assert forall|q: int| 0 <= q < groups.len() implies (
                        #[trigger] groups[q]).holds(m, k + 1) by {
                            if q != p {
                                assert(groups[q] == before[q]);
                                assert(before[q].holds(m, k as int));
                                assert(old_stems[q] == groups[q].stem@);
                                lemma_precedes_total(old_stems[p as int], old_stems[q]);
                                lemma_precedes_total(old_stems[q], old_stems[p as int]);
                                if q < p {
                                    assert(precedes(old_stems[q], old_stems[p as int]));
                                } else {
                                    assert(precedes(old_stems[p as int], old_stems[q]));
                                }
                                assert(groups[q].stem@ != stem@);
                            } else {
                                assert(before[p as int].holds(m, k as int));
                                assert(groups[q].slots@ == before[p as int].slots@.update(
                                    *slot as int,
                                    Some(k),
                                ));
                            }
                        }
                    }
                } else {
                    let ghost before = groups@;
                    let mut slots: Vec<Option<usize>> = Vec::new();
                    let mut s: usize = 0;
                    while s < SLOTS
                        invariant
                            s <= SLOTS,
                            slots.len() == s,
                            forall|x: int| 0 <= x < s ==> (#[trigger] slots[x]) is None,
                        decreases SLOTS - s,
                    {
                        slots.push(None);
                        s += 1;
                    }
                    slots.set(*slot, Some(k));
                    groups.insert(p, Group { stem: stem.clone(), slots });
                    proof {
                        assert(!old_stems.contains(stem@));
                        assert(stems(groups@) =~= old_stems.insert(p as int, stem@));
                        assert forall|q: int| 0 <= q < groups.len() implies (
                        #[trigger] groups[q]).holds(m, k + 1) by {
                            if q == p {
                                assert forall|x: int| 0 <= x < SLOTS implies {
                                    match #[trigger] groups[q].slots[x] {
                                        Some(i) => i < k + 1 && slot_of(m, stem@, x, k + 1) == Some(
                                            i as int,
                                        ),
                                        None => slot_of(m, stem@, x, k + 1) is None,
                                    }
                                } by {
                                    lemma_unlisted(m, stem@, x, k as int);
                                }
                            } else {
                                let b = if q < p {
                                    q
                                } else {
                                    q - 1
                                };
                                assert(groups[q] == before[b]);
                                assert(before[b].holds(m, k as int));
                                assert(old_stems[b] == groups[q].stem@);
                                assert(old_stems.contains(groups[q].stem@));
                            }
                        }
                    }
                }
            },
        }
        k += 1;
    }
    proof {
        law_stem_list(m, v.len() as int);
        assert(groups.len() == stems(groups@).len());
    }
    (groups, rest)
}

/// A factor is the last tensor that bears its mark, and a module lacks it only where none does.
pub proof fn law_slot_is_the_last_of_its_mark(
    m: Seq<Option<(Seq<char>, int)>>,
    stem: Seq<char>,
    slot: int,
    k: int,
)
    requires
        0 <= k <= m.len(),
    ensures
        match slot_of(m, stem, slot, k) {
            Some(i) => {
                &&& 0 <= i < k && m[i] == Some((stem, slot))
                &&& forall|j: int| i < j < k ==> #[trigger] m[j] != Some((stem, slot))
            },
            None => forall|j: int| 0 <= j < k ==> #[trigger] m[j] != Some((stem, slot)),
        },
    decreases k,
{
    if k > 0 {
        law_slot_is_the_last_of_its_mark(m, stem, slot, k - 1);
    }
}

/// Every tensor is counted on one side: it bears a mark, or it is counted as bearing none.
pub proof fn law_unmarked_tensors_are_counted(m: Seq<Option<(Seq<char>, int)>>, k: int)
    requires
        0 <= k < m.len(),
    ensures
        unmarked(m, 0) == 0,
        m[k] is None ==> unmarked(m, k + 1) == unmarked(m, k) + 1,
        m[k] is Some ==> unmarked(m, k + 1) == unmarked(m, k),
{
}

/// A group holds the factors of its module: each slot a tensor that is marked as the module's and as of
/// that slot, or none is.
pub proof fn law_groups_hold_their_factors(
    g: Group,
    m: Seq<Option<(Seq<char>, int)>>,
    k: int,
    s: int,
)
    requires
        g.holds(m, k),
        0 <= k <= m.len(),
        0 <= s < SLOTS,
    ensures
        g.slots.len() == SLOTS,
        match g.slots[s] {
            Some(i) => i < k && m[i as int] == Some((g.stem@, s)),
            None => forall|i: int| 0 <= i < k ==> #[trigger] m[i] != Some((g.stem@, s)),
        },
{
    law_slot_is_the_last_of_its_mark(m, g.stem@, s, k);
}

} // verus!
