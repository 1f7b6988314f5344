//! The SD3.5 adapter merge: which rows of which module's delta are added to which base weight, and
//! what falls outside the surface.
use super::targets::{
    build_kohya_table, law_targets_partition_the_delta, proper, resolve_targets, slice, stem_targets,
    target_views, whole, Target, TargetView,
};
use crate::adapter::{
    entries, find_tensor, is_adapter_of, is_first, is_readable, kohya_rows, lemma_position,
    lemma_total_grows, position, read_adapter, total_len, AdapterFile, Fold, KohyaTable, TensorEntry,
};
use crate::factors::{
    lemma_other_end, lemma_suffix_leaves, lokr_factor_name, lokr_name, lokr_slot, split_lokr_slot,
    split_view, Role,
};
use crate::grouping::{
    group, law_slot_is_the_last_of_its_mark, law_stem_list, marks, slot_of, stem_list, stems,
    unmarked, Group, Mark, SLOTS,
};
use crate::request::{AdapterKind, AdapterSpec};
use crate::text::{decimal, decimal_of, join, strip_suffix, without_suffix};
use vstd::prelude::*;
use vstd::string::*;

verus! {

/// What a merge did: how many base weights it updated, and how many keys or targets fell outside
/// its surface.
#[derive(Clone, Copy, Debug, PartialEq, Eq, Structural)]
pub struct MergeReport {
    pub merged: usize,
    pub skipped_keys: usize,
}

impl Default for MergeReport {
    fn default() -> (r: Self)
        ensures
            r == (MergeReport { merged: 0, skipped_keys: 0 }),
    {
        MergeReport { merged: 0, skipped_keys: 0 }
    }
}

/// The module and the role of a LoRA key; the suffixes are tried in this order.
pub open spec fn lora_role(key: Seq<char>) -> Option<(Seq<char>, Role)> {
    if let Some(s) = without_suffix(key, ".lora_down.weight"@) {
        Some((s, Role::Down))
    } else if let Some(s) = without_suffix(key, ".lora_up.weight"@) {
        Some((s, Role::Up))
    } else if let Some(s) = without_suffix(key, ".lora_A.default.weight"@) {
        Some((s, Role::Down))
    } else if let Some(s) = without_suffix(key, ".lora_B.default.weight"@) {
        Some((s, Role::Up))
    } else if let Some(s) = without_suffix(key, ".lora_A.weight"@) {
        Some((s, Role::Down))
    } else if let Some(s) = without_suffix(key, ".lora_B.weight"@) {
        Some((s, Role::Up))
    } else if let Some(s) = without_suffix(key, ".alpha"@) {
        Some((s, Role::Alpha))
    } else {
        None
    }
}

/// Splits a LoRA key into its module and its role; `None` is no LoRA factor.
pub fn split_lora_role<'a>(key: &'a str) -> (r: Option<(&'a str, Role)>)
    ensures
        split_view(r) == lora_role(key@),
{
    if let Some(s) = strip_suffix(key, ".lora_down.weight") {
        Some((s, Role::Down))
    } else if let Some(s) = strip_suffix(key, ".lora_up.weight") {
        Some((s, Role::Up))
    } else if let Some(s) = strip_suffix(key, ".lora_A.default.weight") {
        Some((s, Role::Down))
    } else if let Some(s) = strip_suffix(key, ".lora_B.default.weight") {
        Some((s, Role::Up))
    } else if let Some(s) = strip_suffix(key, ".lora_A.weight") {
        Some((s, Role::Down))
    } else if let Some(s) = strip_suffix(key, ".lora_B.weight") {
        Some((s, Role::Up))
    } else if let Some(s) = strip_suffix(key, ".alpha") {
        Some((s, Role::Alpha))
    } else {
        None
    }
}

/// Splits a LoKr key into its module and the name of its factor; `None` is no LoKr factor.
pub fn split_lokr_factor<'a>(key: &'a str) -> (r: Option<(&'a str, &'static str)>)
    ensures
        match r {
            Some((s, f)) => lokr_slot(key@) is Some && s@ == (lokr_slot(key@)->0).0 && f@
                == lokr_name((lokr_slot(key@)->0).1),
            None => lokr_slot(key@) is None,
        },
{
    match split_lokr_slot(key) {
        Some((s, k)) => Some((s, lokr_factor_name(k))),
        None => None,
    }
}

/// The rows of a `rows` by `cols` delta that go to `target`, where the base has a weight of their
/// shape. A slice whose rows do not divide evenly goes nowhere.
pub open spec fn fold_of(
    base: Seq<(Seq<char>, Seq<usize>)>,
    target: TargetView,
    rows: usize,
    cols: usize,
) -> Option<Fold> {
    let (index, parts) = match target.1 {
        Some((i, p)) => (i as int, p as int),
        None => (0int, 1int),
    };
    let count = rows as int / parts;
    match position(base, target.0 + ".weight"@) {
        Some(b) if rows as int % parts == 0 && base[b].1 == seq![count as usize, cols] => Some(
            Fold { base: b as usize, first_row: (index * count) as usize, rows: count as usize },
        ),
        _ => None,
    }
}

/// The folds of a delta into the first `k` targets, in order.
pub open spec fn folds(
    base: Seq<(Seq<char>, Seq<usize>)>,
    targets: Seq<TargetView>,
    rows: usize,
    cols: usize,
    k: int,
) -> Seq<Fold>
    decreases k,
{
    if k <= 0 {
        Seq::empty()
    } else {
        let before = folds(base, targets, rows, cols, k - 1);
        match fold_of(base, targets[k - 1], rows, cols) {
            Some(f) => before.push(f),
            None => before,
        }
    }
}

/// Where one slice of a delta goes: the base weight `key`, if it has the slice's shape.
fn merge_into(base: &Vec<TensorEntry>, key: &str, rows: usize, cols: usize) -> (r: Option<usize>)
    ensures
        match r {
            Some(b) => b < base.len() && position(entries(base@), key@) == Some(b as int)
                && base[b as int].dims@ == seq![rows, cols],
            None => match position(entries(base@), key@) {
                Some(b) => entries(base@)[b].1 != seq![rows, cols],
                None => true,
            },
        },
{
    match find_tensor(base, key) {
        Some(b) => {
            let d = &base[b].dims;
            proof {
                assert(entries(base@)[b as int].1 == d@);
            }
            if d.len() == 2 && d[0] == rows && d[1] == cols {
                proof {
                    assert(d@ =~= seq![rows, cols]);
                }
                Some(b)
            } else {
                None
            }
        },
        None => None,
    }
}

/// The folds of a `rows` by `cols` delta into its targets. A target that is missing from the base,
/// or has another shape, gets none.
pub fn merge_targets(base: &Vec<TensorEntry>, targets: &Vec<Target>, rows: usize, cols: usize) -> (r:
    Vec<Fold>)
    requires
        proper(target_views(targets@)),
    ensures
        r@ == folds(
            entries(base@),
            target_views(targets@),
            rows,
            cols,
            targets.len() as int,
        ),
        r.len() <= targets.len(),
{
    let ghost e = entries(base@);
    let ghost t = target_views(targets@);
    let mut out: Vec<Fold> = Vec::new();
    let mut i: usize = 0;
    while i < targets.len()
        invariant
            i <= targets.len(),
            e == entries(base@),
            t == target_views(targets@),
            proper(t),
            out@ == folds(e, t, rows, cols, i as int),
            out.len() <= i,
        decreases targets.len() - i,
    {
        let key = join(targets[i].path.as_str(), ".weight");
        proof {
            assert(t[i as int] == targets[i as int].v());
        }
        match targets[i].chunk {
            None => {
                proof {
                    assert(rows as int / 1 == rows && rows as int % 1 == 0);
                }
                if let Some(b) = merge_into(base, key.as_str(), rows, cols) {
                    out.push(Fold { base: b, first_row: 0, rows });
                }
            },
            Some((index, parts)) => {
                if rows % parts == 0 {
                    let count: usize = rows / parts;
                    proof {
                        assert(index * count <= rows) by (nonlinear_arith)
                            requires
                                index < parts,
                                count == rows as int / parts as int,
                                parts > 0,
                                rows >= 0,
                        {
                            vstd::arithmetic::div_mod::lemma_fundamental_div_mod(
                                rows as int,
                                parts as int,
                            );
                        }
                    }
                    if let Some(b) = merge_into(base, key.as_str(), count, cols) {
                        out.push(Fold { base: b, first_row: index * count, rows: count });
                    }
                }
            },
        }
        i += 1;
    }
    out
}

/// The slices of a fused delta are disjoint and cover it: the rows of part `i` run from `i` thirds
/// to `i + 1` thirds.
pub proof fn law_slices_cover_the_delta(
    base: Seq<(Seq<char>, Seq<usize>)>,
    path: Seq<char>,
    index: usize,
    rows: usize,
    cols: usize,
)
    requires
        index < 3,
    ensures
        fold_of(base, (path, Some((index, 3usize))), rows, cols) matches Some(f) ==> {
            &&& 3 * f.rows == rows
            &&& f.first_row == index * f.rows
            &&& f.first_row + f.rows <= rows
        },
{
    let count = rows as int / 3;
    assert(0 <= index * count <= 2 * count) by (nonlinear_arith)
        requires
            index < 3,
            count >= 0,
    ;
}

/// One LoRA module to merge: its factor tensors, the scaling inputs, and where its delta goes.
#[derive(Clone, Debug)]
pub struct LoraModule {
    /// The path by which file metadata scales the module.
    pub config_path: String,
    pub down: usize,
    pub up: usize,
    /// The tensor that holds the module's own alpha.
    pub alpha: Option<usize>,
    /// The rank to scale by where the metadata gives none.
    pub rank: usize,
    pub folds: Vec<Fold>,
}

/// What becomes of one LoRA module.
pub enum LoraOutcome {
    /// Out of the surface, for so many keys.
    Skipped(int),
    /// The factors do not multiply.
    Mismatch,
    Merge {
        config: Seq<char>,
        down: int,
        up: int,
        alpha: Option<int>,
        rank: usize,
        folds: Seq<Fold>,
        missed: int,
    },
}

impl LoraModule {
    pub open spec fn is(&self, o: LoraOutcome) -> bool {
        match o {
            LoraOutcome::Merge { config, down, up, alpha, rank, folds, missed } => {
                &&& self.config_path@ == config
                &&& self.down == down && self.up == up && self.rank == rank
                &&& self.folds@ == folds
                &&& match (self.alpha, alpha) {
                    (Some(a), Some(b)) => a == b,
                    (None, None) => true,
                    _ => false,
                }
            },
            _ => false,
        }
    }
}

/// The marks of the tensors of a LoRA file.
pub open spec fn lora_marks(tensors: Seq<(Seq<char>, Seq<usize>)>) -> Seq<
    Option<(Seq<char>, int)>,
> {
    tensors.map_values(
        |t: (Seq<char>, Seq<usize>)|
            match lora_role(t.0) {
                Some((s, role)) => Some((s, role.slot())),
                None => None,
            },
    )
}

pub open spec fn count_some(o: Option<int>) -> int {
    if o is Some {
        1
    } else {
        0
    }
}

/// What becomes of module `stem`. An unresolved module surfaces each of its keys; a half pair and a
/// pair that is not two matrices surface once; any other pair is merged, and surfaces each target
/// that the base does not have in its shape.
pub open spec fn lora_outcome(
    base: Seq<(Seq<char>, Seq<usize>)>,
    tensors: Seq<(Seq<char>, Seq<usize>)>,
    table: Map<Seq<char>, Seq<char>>,
    stem: Seq<char>,
) -> LoraOutcome {
    let m = lora_marks(tensors);
    let n = tensors.len() as int;
    let (down, up, alpha) = (slot_of(m, stem, 0, n), slot_of(m, stem, 1, n), slot_of(m, stem, 2, n));
    match stem_targets(stem, table) {
        None => LoraOutcome::Skipped(count_some(down) + count_some(up) + count_some(alpha)),
        Some(t) => match (down, up) {
            (Some(d), Some(u)) => {
                let (a, b) = (tensors[d].1, tensors[u].1);
                if a.len() != 2 || b.len() != 2 {
                    LoraOutcome::Skipped(1)
                } else if b[1] != a[0] {
                    LoraOutcome::Mismatch
                } else {
                    let f = folds(base, t, b[0], a[1], t.len() as int);
                    LoraOutcome::Merge {
                        config: t[0].0,
                        down: d,
                        up: u,
                        alpha,
                        rank: a[0],
                        folds: f,
                        missed: t.len() - f.len(),
                    }
                }
            },
            _ => LoraOutcome::Skipped(1),
        },
    }
}

impl LoraOutcome {
    pub open spec fn skipped(self) -> int {
        match self {
            LoraOutcome::Skipped(k) => k,
            LoraOutcome::Mismatch => 0,
            LoraOutcome::Merge { missed, .. } => missed,
        }
    }

    pub open spec fn merged(self) -> int {
        match self {
            LoraOutcome::Merge { folds, .. } => folds.len() as int,
            _ => 0,
        }
    }
}

/// The totals over the first `k` modules: weights updated and keys skipped.
pub open spec fn lora_totals(o: Seq<LoraOutcome>, k: int) -> (int, int)
    decreases k,
{
    if k <= 0 {
        (0, 0)
    } else {
        let (a, b) = lora_totals(o, k - 1);
        (a + o[k - 1].merged(), b + o[k - 1].skipped())
    }
}

/// The outcomes that merge, among the first `k`.
pub open spec fn lora_merges(o: Seq<LoraOutcome>, k: int) -> Seq<LoraOutcome>
    decreases k,
{
    if k <= 0 {
        Seq::empty()
    } else if o[k - 1] is Merge {
        lora_merges(o, k - 1).push(o[k - 1])
    } else {
        lora_merges(o, k - 1)
    }
}

/// The outcomes of a file's modules, in key order.
pub open spec fn lora_outcomes(
    base: Seq<(Seq<char>, Seq<usize>)>,
    tensors: Seq<(Seq<char>, Seq<usize>)>,
    table: Map<Seq<char>, Seq<char>>,
) -> Seq<LoraOutcome> {
    stem_list(lora_marks(tensors), tensors.len() as int).map_values(
        |s: Seq<char>| lora_outcome(base, tensors, table, s),
    )
}

/// Every module's factors multiply.
pub open spec fn all_multiply(o: Seq<LoraOutcome>) -> bool {
    forall|i: int| 0 <= i < o.len() ==> !((#[trigger] o[i]) is Mismatch)
}

/// The merge of a LoRA file: its totals, and the modules to merge.
pub open spec fn lora_file_totals(
    base: Seq<(Seq<char>, Seq<usize>)>,
    tensors: Seq<(Seq<char>, Seq<usize>)>,
    table: Map<Seq<char>, Seq<char>>,
) -> (int, int) {
    let o = lora_outcomes(base, tensors, table);
    let (a, b) = lora_totals(o, o.len() as int);
    (a, b + unmarked(lora_marks(tensors), tensors.len() as int))
}

pub open spec fn lora_file_merges(
    base: Seq<(Seq<char>, Seq<usize>)>,
    tensors: Seq<(Seq<char>, Seq<usize>)>,
    table: Map<Seq<char>, Seq<char>>,
) -> Seq<LoraOutcome> {
    let o = lora_outcomes(base, tensors, table);
    lora_merges(o, o.len() as int)
}

/// The modules are the given merges.
pub open spec fn are_modules(v: Seq<LoraModule>, o: Seq<LoraOutcome>) -> bool {
    v.len() == o.len() && forall|i: int| 0 <= i < v.len() ==> (#[trigger] v[i]).is(o[i])
}

/// Why a merge fails.
#[derive(Clone, Debug)]
pub enum MergeError {
    /// The bytes of an adapter are no safetensors file.
    Unreadable { path: String, reason: String },
    /// A file declared a LoRA whose metadata says it is a LoKr.
    KindMismatch { path: String },
    /// A module's factors do not multiply. Their shapes tell so before any tensor is multiplied, so the
    /// words are this library's own.
    FactorMismatch,
    /// Nothing matched, over so many files.
    NothingMatched { files: usize },
}

fn lora_mark_list(tensors: &Vec<TensorEntry>) -> (r: Vec<Mark>)
    ensures
        marks(r@) == lora_marks(entries(tensors@)),
        forall|i: int| 0 <= i < r.len() ==> ((#[trigger] r[i]) matches Some((_, s)) ==> s < SLOTS),
        r.len() == tensors.len(),
{
    let ghost e = entries(tensors@);
    let mut out: Vec<Mark> = Vec::new();
    let mut i: usize = 0;
    while i < tensors.len()
        invariant
            i <= tensors.len(),
            e == entries(tensors@),
            out.len() == i,
            forall|k: int|
                0 <= k < i ==> #[trigger] marks(out@)[k] == lora_marks(e)[k],
            forall|k: int|
                0 <= k < i ==> ((#[trigger] out[k]) matches Some((_, s)) ==> s < SLOTS),
        decreases tensors.len() - i,
    {
        let ghost before = out@;
        proof {
            assert(e[i as int].0 == tensors[i as int].name@);
        }
        match split_lora_role(tensors[i].name.as_str()) {
            Some((s, role)) => {
                out.push(Some((String::from_str(s), role.index())));
            },
            None => {
                out.push(None);
            },
        }
        proof {
            assert forall|k: int| 0 <= k < i + 1 implies #[trigger] marks(out@)[k] == lora_marks(
                e,
            )[k] by {
                if k < i {
                    assert(out@[k] == before[k]);
                    assert(marks(before)[k] == lora_marks(e)[k]);
                }
            }
        }
        i += 1;
    }
    proof {
        assert(marks(out@) =~= lora_marks(e));
    }
    out
}

proof fn lemma_lora_totals_bound(o: Seq<LoraOutcome>, k: int)
    requires
        0 <= k <= o.len(),
        forall|i: int|
            0 <= i < o.len() ==> 0 <= (#[trigger] o[i]).merged() <= 3 && 0 <= o[i].skipped() <= 3,
    ensures
        0 <= lora_totals(o, k).0 <= 3 * k,
        0 <= lora_totals(o, k).1 <= 3 * k,
    decreases k,
{
    if k > 0 {
        lemma_lora_totals_bound(o, k - 1);
    }
}

proof fn lemma_folds_len(
    base: Seq<(Seq<char>, Seq<usize>)>,
    targets: Seq<TargetView>,
    rows: usize,
    cols: usize,
    k: int,
)
    requires
        k >= 0,
    ensures
        folds(base, targets, rows, cols, k).len() <= k,
    decreases k,
{
    if k > 0 {
        lemma_folds_len(base, targets, rows, cols, k - 1);
    }
}

proof fn lemma_outcome_bounds(
    base: Seq<(Seq<char>, Seq<usize>)>,
    tensors: Seq<(Seq<char>, Seq<usize>)>,
    table: Map<Seq<char>, Seq<char>>,
    stem: Seq<char>,
)
    ensures
        0 <= lora_outcome(base, tensors, table, stem).merged() <= 3,
        0 <= lora_outcome(base, tensors, table, stem).skipped() <= 3,
{
    law_targets_partition_the_delta(stem, table);
    let o = lora_outcome(base, tensors, table, stem);
    if let LoraOutcome::Merge { down, up, .. } = o {
        let t = stem_targets(stem, table)->0;
        lemma_folds_len(base, t, tensors[up].1[0], tensors[down].1[1], t.len() as int);
    }
}

/// What becomes of one grouped module.
fn plan_lora_module(
    base: &Vec<TensorEntry>,
    tensors: &Vec<TensorEntry>,
    table: &KohyaTable,
    g: &Group,
    report: &mut MergeReport,
) -> (r: Result<Option<LoraModule>, MergeError>)
    requires
        table.wf(),
        g.holds(lora_marks(entries(tensors@)), tensors.len() as int),
        old(report).merged + 3 <= usize::MAX,
        old(report).skipped_keys + 3 <= usize::MAX,
    ensures
        ({
            let o = lora_outcome(entries(base@), entries(tensors@), table@, g.stem@);
            match r {
                Ok(Some(m)) => o is Merge && m.is(o),
                Ok(None) => o is Skipped,
                Err(e) => o is Mismatch && e is FactorMismatch,
            }
        }),
        r is Ok ==> {
            let o = lora_outcome(entries(base@), entries(tensors@), table@, g.stem@);
            &&& final(report).merged == old(report).merged + o.merged()
            &&& final(report).skipped_keys == old(report).skipped_keys + o.skipped()
        },
        r is Err ==> *final(report) == *old(report),
{
    let ghost e = entries(tensors@);
    let ghost m = lora_marks(e);
    let (down, up, alpha) = (g.slots[0], g.slots[1], g.slots[2]);
    let targets = match resolve_targets(g.stem.as_str(), table) {
        Some(t) => t,
        None => {
            let mut keys: usize = 0;
            if down.is_some() {
                keys += 1;
            }
            if up.is_some() {
                keys += 1;
            }
            if alpha.is_some() {
                keys += 1;
            }
            report.skipped_keys = report.skipped_keys + keys;
            return Ok(None);
        },
    };
    proof {
        law_targets_partition_the_delta(g.stem@, table@);
        assert(target_views(targets@)[0] == targets[0].v());
    }
    let (d, u): (usize, usize) = match (down, up) {
        (Some(d), Some(u)) => (d, u),
        _ => {
            report.skipped_keys = report.skipped_keys + 1;
            return Ok(None);
        },
    };
    let (a, b) = (&tensors[d].dims, &tensors[u].dims);
    proof {
        assert(e[d as int].1 == a@);
        assert(e[u as int].1 == b@);
    }
    if a.len() != 2 || b.len() != 2 {
        report.skipped_keys = report.skipped_keys + 1;
        return Ok(None);
    }
    if b[1] != a[0] {
        return Err(MergeError::FactorMismatch);
    }
    let found = merge_targets(base, &targets, b[0], a[1]);
    let missed: usize = targets.len() - found.len();
    report.merged = report.merged + found.len();
    report.skipped_keys = report.skipped_keys + missed;
    Ok(
        Some(
            LoraModule {
                config_path: targets[0].path.clone(),
                down: d,
                up: u,
                alpha,
                rank: a[0],
                folds: found,
            },
        ),
    )
}

/// Plans the merge of one LoRA file: groups its factors by module, resolves each module, and adds
/// what was merged and what was skipped to the report.
pub fn merge_lora_file(
    base: &Vec<TensorEntry>,
    af: &AdapterFile,
    table: &KohyaTable,
    report: &mut MergeReport,
) -> (r: Result<Vec<LoraModule>, MergeError>)
    requires
        table.wf(),
        old(report).merged + 3 * af.tensors.len() <= usize::MAX,
        old(report).skipped_keys + 3 * af.tensors.len() <= usize::MAX,
    ensures
        match r {
            Ok(v) => {
                let t = lora_file_totals(entries(base@), af.entries(), table@);
                &&& all_multiply(lora_outcomes(entries(base@), af.entries(), table@))
                &&& are_modules(v@, lora_file_merges(entries(base@), af.entries(), table@))
                &&& final(report).merged == old(report).merged + t.0
                &&& final(report).skipped_keys == old(report).skipped_keys + t.1
                &&& t.0 <= 3 * af.tensors.len() && t.1 <= 3 * af.tensors.len()
            },
            Err(e) => e is FactorMismatch && *final(report) == *old(report) && !all_multiply(
                lora_outcomes(entries(base@), af.entries(), table@),
            ),
        },
{
    let ghost be = entries(base@);
    let ghost e = af.entries();
    let marked = lora_mark_list(&af.tensors);
    let (groups, rest) = group(&marked);
    let ghost o = lora_outcomes(be, e, table@);
    proof {
        assert(stems(groups@).len() == groups.len());
        assert(o.len() == groups.len());
        assert forall|i: int| 0 <= i < o.len() implies 0 <= (#[trigger] o[i]).merged() <= 3 && 0
            <= o[i].skipped() <= 3 by {
            lemma_outcome_bounds(be, e, table@, stems(groups@)[i]);
        }
        lemma_lora_totals_bound(o, o.len() as int);
    }
    let mut local = MergeReport {
        merged: report.merged,
        skipped_keys: report.skipped_keys + rest,
    };
    let mut out: Vec<LoraModule> = Vec::new();
    let mut i: usize = 0;
    while i < groups.len()
        invariant
            i <= groups.len(),
            table.wf(),
            be == entries(base@),
            e == af.entries(),
            o == lora_outcomes(be, e, table@),
            o.len() == groups.len(),
            stems(groups@) == stem_list(lora_marks(e), e.len() as int),
            e.len() == af.tensors.len(),
            forall|g: int|
                0 <= g < groups.len() ==> (#[trigger] groups[g]).holds(
                    lora_marks(e),
                    af.tensors.len() as int,
                ),
            groups.len() + rest <= af.tensors.len(),
            old(report).merged + 3 * af.tensors.len() <= usize::MAX,
            old(report).skipped_keys + 3 * af.tensors.len() <= usize::MAX,
            forall|k: int|
                0 <= k < o.len() ==> 0 <= (#[trigger] o[k]).merged() <= 3 && 0 <= o[k].skipped()
                    <= 3,
            *report == *old(report),
            local.merged == old(report).merged + lora_totals(o, i as int).0,
            local.skipped_keys == old(report).skipped_keys + rest + lora_totals(o, i as int).1,
            are_modules(out@, lora_merges(o, i as int)),
            forall|k: int| 0 <= k < i ==> !((#[trigger] o[k]) is Mismatch),
        decreases groups.len() - i,
    {
        proof {
            lemma_lora_totals_bound(o, i as int);
            assert(o[i as int] == lora_outcome(be, e, table@, groups[i as int].stem@)) by {
                assert(stems(groups@)[i as int] == groups[i as int].stem@);
            }
        }
        match plan_lora_module(base, &af.tensors, table, &groups[i], &mut local) {
            Ok(Some(module)) => {
                out.push(module);
            },
            Ok(None) => {},
            Err(err) => {
                return Err(err);
            },
        }
        i += 1;
    }
    *report = local;
    Ok(out)
}

/// Nothing is dropped in silence: a module that is not refused as a whole has a weight updated, or a
/// key or target surfaced as skipped.
pub proof fn law_every_module_is_surfaced(
    base: Seq<(Seq<char>, Seq<usize>)>,
    tensors: Seq<(Seq<char>, Seq<usize>)>,
    table: Map<Seq<char>, Seq<char>>,
    i: int,
)
    requires
        0 <= i < lora_outcomes(base, tensors, table).len(),
    ensures
        ({
            let o = lora_outcomes(base, tensors, table)[i];
            o is Mismatch || o.merged() + o.skipped() >= 1
        }),
{
    let m = lora_marks(tensors);
    let n = tensors.len() as int;
    let list = stem_list(m, n);
    let stem = list[i];
    law_stem_list(m, n);
    assert(list.contains(stem));
    law_targets_partition_the_delta(stem, table);
    let k = choose|k: int| 0 <= k < n && crate::grouping::belongs(#[trigger] m[k], stem);
    let role = (lora_role(tensors[k].0)->0).1;
    lemma_slot_found(m, stem, role.slot(), k, n);
    let o = lora_outcome(base, tensors, table, stem);
    if let LoraOutcome::Merge { down, up, .. } = o {
        let t = stem_targets(stem, table)->0;
        lemma_folds_len(base, t, tensors[up].1[0], tensors[down].1[1], t.len() as int);
    }
}

proof fn lemma_slot_found(
    m: Seq<Option<(Seq<char>, int)>>,
    stem: Seq<char>,
    slot: int,
    k: int,
    n: int,
)
    requires
        0 <= k < n <= m.len(),
        m[k] == Some((stem, slot)),
    ensures
        slot_of(m, stem, slot, n) is Some,
    decreases n,
{
    if m[n - 1] != Some((stem, slot)) {
        lemma_slot_found(m, stem, slot, k, n - 1);
    }
}

/// One LoKr module to merge: its factor tensors by slot, the shape of its delta, and where that
/// goes.
#[derive(Clone, Debug)]
pub struct LokrModule {
    pub factors: Vec<Option<usize>>,
    pub rows: usize,
    pub cols: usize,
    pub folds: Vec<Fold>,
}

/// The merge of a LoKr file: the texts of its global rank and alpha, and its modules. Without a rank
/// the scale is 1; without an alpha it is the rank.
#[derive(Clone, Debug)]
pub struct LokrPlan {
    pub rank: Option<String>,
    pub alpha: Option<String>,
    pub modules: Vec<LokrModule>,
}

/// What becomes of one LoKr module.
pub enum LokrOutcome {
    Skipped(int),
    Merge { stem: Seq<char>, rows: usize, cols: usize, folds: Seq<Fold>, missed: int },
}

impl LokrOutcome {
    pub open spec fn skipped(self) -> int {
        match self {
            LokrOutcome::Skipped(k) => k,
            LokrOutcome::Merge { missed, .. } => missed,
        }
    }

    pub open spec fn merged(self) -> int {
        match self {
            LokrOutcome::Merge { folds, .. } => folds.len() as int,
            _ => 0,
        }
    }
}

/// The marks of the tensors of a LoKr file.
pub open spec fn lokr_marks(tensors: Seq<(Seq<char>, Seq<usize>)>) -> Seq<
    Option<(Seq<char>, int)>,
> {
    tensors.map_values(
        |t: (Seq<char>, Seq<usize>)|
            match lokr_slot(t.0) {
                Some((s, k)) => Some((s, k as int)),
                None => None,
            },
    )
}

/// How many of a module's six factors are present.
pub open spec fn factor_count(m: Seq<Option<(Seq<char>, int)>>, stem: Seq<char>, n: int) -> int {
    count_some(slot_of(m, stem, 0, n)) + count_some(slot_of(m, stem, 1, n)) + count_some(
        slot_of(m, stem, 2, n),
    ) + count_some(slot_of(m, stem, 3, n)) + count_some(slot_of(m, stem, 4, n)) + count_some(
        slot_of(m, stem, 5, n),
    )
}

/// The shape of a module's whole delta, from its first target's base weight: that weight's shape,
/// with its rows times the number of slices.
pub open spec fn full_shape(base: Seq<(Seq<char>, Seq<usize>)>, targets: Seq<TargetView>) -> Option<
    (int, usize),
> {
    let parts = match targets[0].1 {
        Some((_, p)) => p as int,
        None => 1int,
    };
    match position(base, targets[0].0 + ".weight"@) {
        Some(b) if base[b].1.len() == 2 => Some((base[b].1[0] * parts, base[b].1[1])),
        _ => None,
    }
}

/// The rows of three slices of any base matrix fit.
pub open spec fn rows_fit(base: Seq<(Seq<char>, Seq<usize>)>) -> bool {
    forall|i: int|
        0 <= i < base.len() && (#[trigger] base[i]).1.len() == 2 ==> 3 * base[i].1[0] <= usize::MAX
}

/// What becomes of module `stem` of a LoKr file.
pub open spec fn lokr_outcome(
    base: Seq<(Seq<char>, Seq<usize>)>,
    tensors: Seq<(Seq<char>, Seq<usize>)>,
    table: Map<Seq<char>, Seq<char>>,
    stem: Seq<char>,
) -> LokrOutcome {
    let n = tensors.len() as int;
    match stem_targets(stem, table) {
        None => LokrOutcome::Skipped(factor_count(lokr_marks(tensors), stem, n)),
        Some(t) => match full_shape(base, t) {
            None => LokrOutcome::Skipped(1),
            Some((rows, cols)) => {
                let f = folds(base, t, rows as usize, cols, t.len() as int);
                LokrOutcome::Merge {
                    stem,
                    rows: rows as usize,
                    cols,
                    folds: f,
                    missed: t.len() - f.len(),
                }
            },
        },
    }
}

/// The outcomes of a LoKr file's modules, in key order.
pub open spec fn lokr_outcomes(
    base: Seq<(Seq<char>, Seq<usize>)>,
    tensors: Seq<(Seq<char>, Seq<usize>)>,
    table: Map<Seq<char>, Seq<char>>,
) -> Seq<LokrOutcome> {
    stem_list(lokr_marks(tensors), tensors.len() as int).map_values(
        |s: Seq<char>| lokr_outcome(base, tensors, table, s),
    )
}

/// The totals over the first `k` modules: weights updated and keys skipped.
pub open spec fn lokr_totals(o: Seq<LokrOutcome>, k: int) -> (int, int)
    decreases k,
{
    if k <= 0 {
        (0, 0)
    } else {
        let (a, b) = lokr_totals(o, k - 1);
        (a + o[k - 1].merged(), b + o[k - 1].skipped())
    }
}

/// The outcomes that merge, among the first `k`.
pub open spec fn lokr_merges(o: Seq<LokrOutcome>, k: int) -> Seq<LokrOutcome>
    decreases k,
{
    if k <= 0 {
        Seq::empty()
    } else if o[k - 1] is Merge {
        lokr_merges(o, k - 1).push(o[k - 1])
    } else {
        lokr_merges(o, k - 1)
    }
}

/// The totals of a LoKr file.
pub open spec fn lokr_file_totals(
    base: Seq<(Seq<char>, Seq<usize>)>,
    tensors: Seq<(Seq<char>, Seq<usize>)>,
    table: Map<Seq<char>, Seq<char>>,
) -> (int, int) {
    let o = lokr_outcomes(base, tensors, table);
    let (a, b) = lokr_totals(o, o.len() as int);
    (a, b + unmarked(lokr_marks(tensors), tensors.len() as int))
}

impl LokrModule {
    /// The module is the given merge, with the factors that its stem has.
    pub open spec fn is(&self, o: LokrOutcome, m: Seq<Option<(Seq<char>, int)>>) -> bool {
        match o {
            LokrOutcome::Merge { stem, rows, cols, folds, missed } => {
                &&& self.rows == rows && self.cols == cols && self.folds@ == folds
                &&& self.factors.len() == SLOTS
                &&& forall|s: int|
                    0 <= s < SLOTS ==> match #[trigger] self.factors[s] {
                        Some(i) => slot_of(m, stem, s, m.len() as int) == Some(i as int),
                        None => slot_of(m, stem, s, m.len() as int) is None,
                    }
            },
            _ => false,
        }
    }
}

/// The modules are the given merges.
pub open spec fn are_lokr_modules(
    v: Seq<LokrModule>,
    o: Seq<LokrOutcome>,
    m: Seq<Option<(Seq<char>, int)>>,
) -> bool {
    v.len() == o.len() && forall|i: int| 0 <= i < v.len() ==> (#[trigger] v[i]).is(o[i], m)
}

fn lokr_mark_list(tensors: &Vec<TensorEntry>) -> (r: Vec<Mark>)
    ensures
        marks(r@) == lokr_marks(entries(tensors@)),
        forall|i: int| 0 <= i < r.len() ==> ((#[trigger] r[i]) matches Some((_, s)) ==> s < SLOTS),
        r.len() == tensors.len(),
{
    let ghost e = entries(tensors@);
    let mut out: Vec<Mark> = Vec::new();
    let mut i: usize = 0;
    while i < tensors.len()
        invariant
            i <= tensors.len(),
            e == entries(tensors@),
            out.len() == i,
            forall|k: int| 0 <= k < i ==> #[trigger] marks(out@)[k] == lokr_marks(e)[k],
            forall|k: int|
                0 <= k < i ==> ((#[trigger] out[k]) matches Some((_, s)) ==> s < SLOTS),
        decreases tensors.len() - i,
    {
        let ghost before = out@;
        proof {
            assert(e[i as int].0 == tensors[i as int].name@);
        }
        match split_lokr_slot(tensors[i].name.as_str()) {
            Some((s, k)) => {
                out.push(Some((String::from_str(s), k)));
            },
            None => {
                out.push(None);
            },
        }
        proof {
            assert forall|k: int| 0 <= k < i + 1 implies #[trigger] marks(out@)[k] == lokr_marks(
                e,
            )[k] by {
                if k < i {
                    assert(out@[k] == before[k]);
                    assert(marks(before)[k] == lokr_marks(e)[k]);
                }
            }
        }
        i += 1;
    }
    proof {
        assert(marks(out@) =~= lokr_marks(e));
    }
    out
}

/// The shape of a module's whole delta, from its first target's base weight.
fn module_full_shape(base: &Vec<TensorEntry>, targets: &Vec<Target>) -> (r: Option<(usize, usize)>)
    requires
        rows_fit(entries(base@)),
        proper(target_views(targets@)),
    ensures
        match r {
            Some((rows, cols)) => full_shape(entries(base@), target_views(targets@)) == Some(
                (rows as int, cols),
            ),
            None => full_shape(entries(base@), target_views(targets@)) is None,
        },
{
    proof {
        assert(target_views(targets@)[0] == targets[0].v());
    }
    let key = join(targets[0].path.as_str(), ".weight");
    let b: usize = match find_tensor(base, key.as_str()) {
        Some(b) => b,
        None => {
            return None;
        },
    };
    let d = &base[b].dims;
    proof {
        assert(entries(base@)[b as int].1 == d@);
    }
    if d.len() != 2 {
        return None;
    }
    let parts: usize = match targets[0].chunk {
        Some((_, n)) => n,
        None => 1,
    };
    proof {
        assert(d[0] * parts <= 3 * d[0]) by (nonlinear_arith)
            requires
                parts <= 3,
                d[0] >= 0,
        ;
        assert(0 <= d[0] * parts) by (nonlinear_arith)
            requires
                parts >= 0,
                d[0] >= 0,
        ;
    }
    Some((d[0] * parts, d[1]))
}

proof fn lemma_lokr_outcome_bounds(
    base: Seq<(Seq<char>, Seq<usize>)>,
    tensors: Seq<(Seq<char>, Seq<usize>)>,
    table: Map<Seq<char>, Seq<char>>,
    stem: Seq<char>,
)
    ensures
        0 <= lokr_outcome(base, tensors, table, stem).merged() <= 6,
        0 <= lokr_outcome(base, tensors, table, stem).skipped() <= 6,
{
    law_targets_partition_the_delta(stem, table);
    let o = lokr_outcome(base, tensors, table, stem);
    if let LokrOutcome::Merge { rows, cols, .. } = o {
        let t = stem_targets(stem, table)->0;
        lemma_folds_len(base, t, rows, cols, t.len() as int);
    }
}

proof fn lemma_lokr_totals_bound(o: Seq<LokrOutcome>, k: int)
    requires
        0 <= k <= o.len(),
        forall|i: int|
            0 <= i < o.len() ==> 0 <= (#[trigger] o[i]).merged() <= 6 && 0 <= o[i].skipped() <= 6,
    ensures
        0 <= lokr_totals(o, k).0 <= 6 * k,
        0 <= lokr_totals(o, k).1 <= 6 * k,
    decreases k,
{
    if k > 0 {
        lemma_lokr_totals_bound(o, k - 1);
    }
}

/// What becomes of one grouped module of a LoKr file.
fn plan_lokr_module(
    base: &Vec<TensorEntry>,
    tensors: &Vec<TensorEntry>,
    table: &KohyaTable,
    g: &Group,
    report: &mut MergeReport,
) -> (r: Option<LokrModule>)
    requires
        table.wf(),
        rows_fit(entries(base@)),
        g.holds(lokr_marks(entries(tensors@)), tensors.len() as int),
        old(report).merged + 6 <= usize::MAX,
        old(report).skipped_keys + 6 <= usize::MAX,
    ensures
        ({
            let o = lokr_outcome(entries(base@), entries(tensors@), table@, g.stem@);
            &&& match r {
                Some(m) => o is Merge && m.is(o, lokr_marks(entries(tensors@))),
                None => o is Skipped,
            }
            &&& final(report).merged == old(report).merged + o.merged()
            &&& final(report).skipped_keys == old(report).skipped_keys + o.skipped()
        }),
{
    let targets = match resolve_targets(g.stem.as_str(), table) {
        Some(t) => t,
        None => {
            let mut keys: usize = 0;
            if g.slots[0].is_some() {
                keys += 1;
            }
            if g.slots[1].is_some() {
                keys += 1;
            }
            if g.slots[2].is_some() {
                keys += 1;
            }
            if g.slots[3].is_some() {
                keys += 1;
            }
            if g.slots[4].is_some() {
                keys += 1;
            }
            if g.slots[5].is_some() {
                keys += 1;
            }
            report.skipped_keys = report.skipped_keys + keys;
            return None;
        },
    };
    proof {
        law_targets_partition_the_delta(g.stem@, table@);
    }
    let (rows, cols): (usize, usize) = match module_full_shape(base, &targets) {
        Some(s) => s,
        None => {
            report.skipped_keys = report.skipped_keys + 1;
            return None;
        },
    };
    let found = merge_targets(base, &targets, rows, cols);
    let missed: usize = targets.len() - found.len();
    report.merged = report.merged + found.len();
    report.skipped_keys = report.skipped_keys + missed;
    let mut factors: Vec<Option<usize>> = Vec::new();
    let mut s: usize = 0;
    while s < SLOTS
        invariant
            s <= SLOTS,
            g.slots.len() == SLOTS,
            factors@ == g.slots@.take(s as int),
        decreases SLOTS - s,
    {
        factors.push(g.slots[s]);
        proof {
            assert(factors@ =~= g.slots@.take(s + 1));
        }
        s += 1;
    }
    proof {
        assert(factors@ =~= g.slots@);
    }
    Some(LokrModule { factors, rows, cols, folds: found })
}

/// The text of a metadata value, where there is one.
pub open spec fn is_meta_text(o: Option<String>, v: Option<Seq<char>>) -> bool {
    match (o, v) {
        (Some(s), Some(t)) => s@ == t,
        (None, None) => true,
        _ => false,
    }
}

fn meta_text(af: &AdapterFile, key: &str) -> (r: Option<String>)
    ensures
        is_meta_text(r, af.meta_value(key@)),
{
    match af.meta_get(key) {
        Some(s) => Some(s.clone()),
        None => None,
    }
}

/// The plan is that of a LoKr file.
pub open spec fn is_lokr_plan(
    p: &LokrPlan,
    base: Seq<(Seq<char>, Seq<usize>)>,
    af: &AdapterFile,
    table: Map<Seq<char>, Seq<char>>,
) -> bool {
    let o = lokr_outcomes(base, af.entries(), table);
    &&& is_meta_text(p.rank, af.meta_value("rank"@))
    &&& is_meta_text(p.alpha, af.meta_value("alpha"@))
    &&& are_lokr_modules(p.modules@, lokr_merges(o, o.len() as int), lokr_marks(af.entries()))
}

/// Plans the merge of one LoKr file: its global rank and alpha, and each module's delta at the full
/// shape of its targets.
pub fn merge_lokr_file(
    base: &Vec<TensorEntry>,
    af: &AdapterFile,
    table: &KohyaTable,
    report: &mut MergeReport,
) -> (r: LokrPlan)
    requires
        table.wf(),
        rows_fit(entries(base@)),
        old(report).merged + 6 * af.tensors.len() <= usize::MAX,
        old(report).skipped_keys + 6 * af.tensors.len() <= usize::MAX,
    ensures
        is_lokr_plan(&r, entries(base@), af, table@),
        ({
            let t = lokr_file_totals(entries(base@), af.entries(), table@);
            &&& final(report).merged == old(report).merged + t.0
            &&& final(report).skipped_keys == old(report).skipped_keys + t.1
            &&& t.0 <= 6 * af.tensors.len() && t.1 <= 6 * af.tensors.len()
        }),
{
    let ghost be = entries(base@);
    let ghost e = af.entries();
    let marked = lokr_mark_list(&af.tensors);
    let (groups, rest) = group(&marked);
    let ghost o = lokr_outcomes(be, e, table@);
    let ghost start = *report;
    proof {
        assert(stems(groups@).len() == groups.len());
        assert(o.len() == groups.len());
        assert forall|i: int| 0 <= i < o.len() implies 0 <= (#[trigger] o[i]).merged() <= 6 && 0
            <= o[i].skipped() <= 6 by {
            lemma_lokr_outcome_bounds(be, e, table@, stems(groups@)[i]);
        }
        lemma_lokr_totals_bound(o, o.len() as int);
    }
    report.skipped_keys = report.skipped_keys + rest;
    let mut modules: Vec<LokrModule> = Vec::new();
    let mut i: usize = 0;
    while i < groups.len()
        invariant
            i <= groups.len(),
            table.wf(),
            be == entries(base@),
            rows_fit(be),
            e == af.entries(),
            o == lokr_outcomes(be, e, table@),
            o.len() == groups.len(),
            stems(groups@) == stem_list(lokr_marks(e), e.len() as int),
            e.len() == af.tensors.len(),
            forall|g: int|
                0 <= g < groups.len() ==> (#[trigger] groups[g]).holds(
                    lokr_marks(e),
                    af.tensors.len() as int,
                ),
            groups.len() + rest <= af.tensors.len(),
            start.merged + 6 * af.tensors.len() <= usize::MAX,
            start.skipped_keys + 6 * af.tensors.len() <= usize::MAX,
            forall|k: int|
                0 <= k < o.len() ==> 0 <= (#[trigger] o[k]).merged() <= 6 && 0 <= o[k].skipped()
                    <= 6,
            report.merged == start.merged + lokr_totals(o, i as int).0,
            report.skipped_keys == start.skipped_keys + rest + lokr_totals(o, i as int).1,
            are_lokr_modules(modules@, lokr_merges(o, i as int), lokr_marks(e)),
        decreases groups.len() - i,
    {
        proof {
            lemma_lokr_totals_bound(o, i as int);
            assert(o[i as int] == lokr_outcome(be, e, table@, groups[i as int].stem@)) by {
                assert(stems(groups@)[i as int] == groups[i as int].stem@);
            }
        }
        if let Some(module) = plan_lokr_module(base, &af.tensors, table, &groups[i], report) {
            modules.push(module);
        }
        i += 1;
    }
    LokrPlan { rank: meta_text(af, "rank"), alpha: meta_text(af, "alpha"), modules }
}

/// The plan of one adapter file.
#[derive(Clone, Debug)]
pub enum FilePlan {
    Lora(Vec<LoraModule>),
    Lokr(LokrPlan),
}

/// The totals of one file, where it can be merged. A file declared a LoRA that says it is a LoKr
/// cannot.
pub open spec fn file_totals(
    base: Seq<(Seq<char>, Seq<usize>)>,
    table: Map<Seq<char>, Seq<char>>,
    kind: AdapterKind,
    af: &AdapterFile,
) -> Option<(int, int)> {
    match kind {
        AdapterKind::Lokr => Some(lokr_file_totals(base, af.entries(), table)),
        AdapterKind::Lora => if af.is_declared_lokr() || !all_multiply(
            lora_outcomes(base, af.entries(), table),
        ) {
            None
        } else {
            Some(lora_file_totals(base, af.entries(), table))
        },
    }
}

/// The plan is that of a file of the given kind.
pub open spec fn is_file_plan(
    p: &FilePlan,
    base: Seq<(Seq<char>, Seq<usize>)>,
    table: Map<Seq<char>, Seq<char>>,
    kind: AdapterKind,
    af: &AdapterFile,
) -> bool {
    match (kind, *p) {
        (AdapterKind::Lokr, FilePlan::Lokr(l)) => is_lokr_plan(&l, base, af, table),
        (AdapterKind::Lora, FilePlan::Lora(v)) => are_modules(
            v@,
            lora_file_merges(base, af.entries(), table),
        ),
        _ => false,
    }
}

/// Plans the merge of one adapter file, routed by its declared kind.
pub fn merge_file(
    base: &Vec<TensorEntry>,
    table: &KohyaTable,
    spec: &AdapterSpec,
    af: &AdapterFile,
    report: &mut MergeReport,
) -> (r: Result<FilePlan, MergeError>)
    requires
        table.wf(),
        rows_fit(entries(base@)),
        old(report).merged + 6 * af.tensors.len() <= usize::MAX,
        old(report).skipped_keys + 6 * af.tensors.len() <= usize::MAX,
    ensures
        match r {
            Ok(p) => {
                let t = file_totals(entries(base@), table@, spec.kind, af);
                &&& t is Some
                &&& is_file_plan(&p, entries(base@), table@, spec.kind, af)
                &&& final(report).merged == old(report).merged + (t->0).0
                &&& final(report).skipped_keys == old(report).skipped_keys + (t->0).1
                &&& (t->0).0 <= 6 * af.tensors.len() && (t->0).1 <= 6 * af.tensors.len()
            },
            Err(e) => {
                &&& file_totals(entries(base@), table@, spec.kind, af) is None
                &&& if af.is_declared_lokr() {
                    e matches MergeError::KindMismatch { path } && path@ == spec.path@
                } else {
                    e is FactorMismatch
                }
                &&& *final(report) == *old(report)
            },
        },
{
    match spec.kind {
        AdapterKind::Lokr => Ok(FilePlan::Lokr(merge_lokr_file(base, af, table, report))),
        AdapterKind::Lora => {
            if af.declares_lokr() {
                return Err(MergeError::KindMismatch { path: spec.path.clone() });
            }
            match merge_lora_file(base, af, table, report) {
                Ok(v) => Ok(FilePlan::Lora(v)),
                Err(e) => Err(e),
            }
        },
    }
}

/// The totals of the first `k` files.
pub open spec fn run_totals(
    base: Seq<(Seq<char>, Seq<usize>)>,
    table: Map<Seq<char>, Seq<char>>,
    specs: Seq<AdapterSpec>,
    files: Seq<(AdapterFile, FilePlan)>,
    k: int,
) -> (int, int)
    decreases k,
{
    if k <= 0 {
        (0, 0)
    } else {
        let (a, b) = run_totals(base, table, specs, files, k - 1);
        match file_totals(base, table, specs[k - 1].kind, &files[k - 1].0) {
            Some((m, s)) => (a + m, b + s),
            None => (a, b),
        }
    }
}

/// Every file was read from its bytes, can be merged, and has its plan.
pub open spec fn planned(
    base: Seq<(Seq<char>, Seq<usize>)>,
    table: Map<Seq<char>, Seq<char>>,
    specs: Seq<AdapterSpec>,
    bytes: Seq<Vec<u8>>,
    files: Seq<(AdapterFile, FilePlan)>,
) -> bool {
    forall|i: int|
        0 <= i < files.len() ==> {
            let f = #[trigger] files[i];
            &&& is_adapter_of(&f.0, bytes[i]@)
            &&& file_totals(base, table, specs[i].kind, &f.0) is Some
            &&& is_file_plan(&f.1, base, table, specs[i].kind, &f.0)
        }
}

/// The first file that was not planned has the bytes of an adapter that fails as `fails` says.
pub open spec fn first_failure(
    base: Seq<(Seq<char>, Seq<usize>)>,
    table: Map<Seq<char>, Seq<char>>,
    specs: Seq<AdapterSpec>,
    bytes: Seq<Vec<u8>>,
    fails: spec_fn(AdapterSpec, AdapterFile) -> bool,
) -> bool {
    exists|done: Seq<(AdapterFile, FilePlan)>, af: AdapterFile|
        {
            &&& #[trigger] planned(base, table, specs, bytes, done)
            &&& done.len() < specs.len()
            &&& #[trigger] is_adapter_of(&af, bytes[done.len() as int]@)
            &&& fails(specs[done.len() as int], af)
        }
}

/// The first file that was not planned, declared as at `path`, is no safetensors file.
pub open spec fn first_unreadable(
    base: Seq<(Seq<char>, Seq<usize>)>,
    table: Map<Seq<char>, Seq<char>>,
    specs: Seq<AdapterSpec>,
    bytes: Seq<Vec<u8>>,
    path: Seq<char>,
) -> bool {
    exists|done: Seq<(AdapterFile, FilePlan)>|
        {
            &&& #[trigger] planned(base, table, specs, bytes, done)
            &&& done.len() < specs.len()
            &&& !is_readable(bytes[done.len() as int]@)
            &&& path == specs[done.len() as int].path@
        }
}

proof fn lemma_run_totals_prefix(
    base: Seq<(Seq<char>, Seq<usize>)>,
    table: Map<Seq<char>, Seq<char>>,
    specs: Seq<AdapterSpec>,
    files: Seq<(AdapterFile, FilePlan)>,
    more: Seq<(AdapterFile, FilePlan)>,
    k: int,
)
    requires
        0 <= k <= files.len() <= more.len(),
        forall|i: int| 0 <= i < files.len() ==> files[i] == more[i],
    ensures
        run_totals(base, table, specs, files, k) == run_totals(base, table, specs, more, k),
    decreases k,
{
    if k > 0 {
        lemma_run_totals_prefix(base, table, specs, files, more, k - 1);
    }
}

/// The scale at which an adapter is merged changes neither the plan nor the report: at scale zero, too,
/// a target counts as merged.
pub proof fn law_scale_keeps_the_report(
    base: Seq<(Seq<char>, Seq<usize>)>,
    table: Map<Seq<char>, Seq<char>>,
    a: Seq<AdapterSpec>,
    b: Seq<AdapterSpec>,
    bytes: Seq<Vec<u8>>,
    files: Seq<(AdapterFile, FilePlan)>,
    k: int,
)
    requires
        a.len() == b.len() == files.len(),
        forall|i: int| 0 <= i < a.len() ==> (#[trigger] a[i]).kind == b[i].kind,
        0 <= k <= files.len(),
    ensures
        run_totals(base, table, a, files, k) == run_totals(base, table, b, files, k),
        planned(base, table, a, bytes, files) == planned(base, table, b, bytes, files),
    decreases k,
{
    if k > 0 {
        law_scale_keeps_the_report(base, table, a, b, bytes, files, k - 1);
        assert(a[k - 1].kind == b[k - 1].kind);
    }
    assert forall|i: int| 0 <= i < files.len() implies a[i].kind == (#[trigger] b[i]).kind by {
        assert(a[i].kind == b[i].kind);
    }
    if planned(base, table, a, bytes, files) {
        assert(planned(base, table, b, bytes, files)) by {
            assert forall|i: int| 0 <= i < files.len() implies ({
                let f = #[trigger] files[i];
                &&& is_adapter_of(&f.0, bytes[i]@)
                &&& file_totals(base, table, b[i].kind, &f.0) is Some
                &&& is_file_plan(&f.1, base, table, b[i].kind, &f.0)
            }) by {
                assert(a[i].kind == b[i].kind);
            }
        }
    }
    if planned(base, table, b, bytes, files) {
        assert(planned(base, table, a, bytes, files)) by {
            assert forall|i: int| 0 <= i < files.len() implies ({
                let f = #[trigger] files[i];
                &&& is_adapter_of(&f.0, bytes[i]@)
                &&& file_totals(base, table, a[i].kind, &f.0) is Some
                &&& is_file_plan(&f.1, base, table, a[i].kind, &f.0)
            }) by {
                assert(a[i].kind == b[i].kind);
            }
        }
    }
}

/// Plans the merge of every adapter into a base checkpoint: reads each file, routes it by its kind
/// and adds up the report. A run that matches nothing is an error, so that an unadapted model is
/// never passed off as an adapted one.
pub fn merge_adapters(
    base: &Vec<TensorEntry>,
    specs: &Vec<AdapterSpec>,
    bytes: &Vec<Vec<u8>>,
) -> (r: Result<(Vec<(AdapterFile, FilePlan)>, MergeReport), MergeError>)
    requires
        specs.len() == bytes.len(),
        rows_fit(entries(base@)),
        total_len(bytes@, bytes.len() as int) <= usize::MAX,
    ensures
        ({
            let b = entries(base@);
            let table = kohya_rows(b, false, b.len() as int);
            match r {
                Ok((files, report)) => {
                    &&& files.len() == specs.len()
                    &&& planned(b, table, specs@, bytes@, files@)
                    &&& (report.merged as int, report.skipped_keys as int) == run_totals(
                        b,
                        table,
                        specs@,
                        files@,
                        specs.len() as int,
                    )
                    &&& specs.len() > 0 ==> report.merged > 0
                },
                Err(MergeError::Unreadable { path, .. }) => first_unreadable(
                    b,
                    table,
                    specs@,
                    bytes@,
                    path@,
                ),
                Err(MergeError::KindMismatch { path }) => first_failure(
                    b,
                    table,
                    specs@,
                    bytes@,
                    |spec: AdapterSpec, af: AdapterFile|
                        spec.kind == AdapterKind::Lora && af.is_declared_lokr() && path@
                            == spec.path@,
                ),
                Err(MergeError::FactorMismatch) => first_failure(
                    b,
                    table,
                    specs@,
                    bytes@,
                    |spec: AdapterSpec, af: AdapterFile|
                        spec.kind == AdapterKind::Lora && !all_multiply(
                            lora_outcomes(b, af.entries(), table),
                        ),
                ),
                Err(MergeError::NothingMatched { files }) => files == specs.len() && files > 0
                    && exists|plans: Seq<(AdapterFile, FilePlan)>|
                    plans.len() == specs.len() && #[trigger] planned(
                        b,
                        table,
                        specs@,
                        bytes@,
                        plans,
                    ) && run_totals(b, table, specs@, plans, specs.len() as int).0 == 0,
            }
        }),
{
    let ghost b = entries(base@);
    let table = build_kohya_table(base);
    let mut report = MergeReport { merged: 0, skipped_keys: 0 };
    let mut files: Vec<(AdapterFile, FilePlan)> = Vec::new();
    let mut i: usize = 0;
    while i < specs.len()
        invariant
            i <= specs.len(),
            specs.len() == bytes.len(),
            b == entries(base@),
            rows_fit(b),
            table.wf(),
            table@ == kohya_rows(b, false, b.len() as int),
            total_len(bytes@, bytes.len() as int) <= usize::MAX,
            files.len() == i,
            planned(b, table@, specs@, bytes@, files@),
            (report.merged as int, report.skipped_keys as int) == run_totals(
                b,
                table@,
                specs@,
                files@,
                i as int,
            ),
            report.merged <= total_len(bytes@, i as int),
            report.skipped_keys <= total_len(bytes@, i as int),
        decreases specs.len() - i,
    {
        let af = match read_adapter(bytes[i].as_slice()) {
            Ok(f) => f,
            Err(reason) => {
                proof {
                    assert(!is_readable(bytes@[i as int]@));
                }
                return Err(MergeError::Unreadable { path: specs[i].path.clone(), reason });
            },
        };
        proof {
            lemma_total_grows(bytes@, i + 1, bytes.len() as int);
        }
        let ghost before = files@;
        match merge_file(base, &table, &specs[i], &af, &mut report) {
            Ok(plan) => {
                files.push((af, plan));
                proof {
                    lemma_run_totals_prefix(b, table@, specs@, before, files@, i as int);
                    assert(files@[i as int] == (af, plan));
                    assert forall|k: int| 0 <= k < files@.len() implies {
                        let f = #[trigger] files@[k];
                        &&& is_adapter_of(&f.0, bytes@[k]@)
                        &&& file_totals(b, table@, specs@[k].kind, &f.0) is Some
                        &&& is_file_plan(&f.1, b, table@, specs@[k].kind, &f.0)
                    } by {
                        if k < i {
                            assert(files@[k] == before[k]);
                        }
                    }
                }
            },
            Err(e) => {
                proof {
                    assert(is_adapter_of(&af, bytes@[i as int]@));
                }
                return Err(e);
            },
        }
        i += 1;
    }
    if specs.len() > 0 && report.merged == 0 {
        proof {
            assert(planned(b, table@, specs@, bytes@, files@));
        }
        return Err(MergeError::NothingMatched { files: specs.len() });
    }
    Ok((files, report))
}

impl MergeError {
    pub open spec fn text(&self) -> Seq<char> {
        match *self {
            MergeError::Unreadable { path, reason } => "read adapter metadata "@ + path@ + ": "@
                + reason@,
            MergeError::KindMismatch { path } => "sd3: adapter "@ + path@
                + " declared Lora but its metadata says networkType=lokr"@,
            MergeError::FactorMismatch => "sd3: adapter factors do not multiply"@,
            MergeError::NothingMatched { files } => "sd3: no adapter target modules matched across "@
                + decimal(files as nat)
                + " file(s) — expected a kohya `lora_sd3` file (`lora_unet_joint_blocks_<i>_<x|context>_block_…`, fused `attn_qkv`) or a diffusers-named LoRA (`transformer_blocks.<i>.attn.<to_q|to_k|to_v|to_out.0>` …). Conv-layer / text-encoder adapters are out of surface"@,
        }
    }

    /// The error in words.
    pub fn message(&self) -> (r: String)
        ensures
            r@ == self.text(),
    {
        match self {
            MergeError::Unreadable { path, reason } => {
                let mut s = join("read adapter metadata ", path.as_str());
                s.append(": ");
                s.append(reason.as_str());
                s
            },
            MergeError::KindMismatch { path } => {
                let mut s = join("sd3: adapter ", path.as_str());
                s.append(" declared Lora but its metadata says networkType=lokr");
                s
            },
            MergeError::FactorMismatch => String::from_str("sd3: adapter factors do not multiply"),
            MergeError::NothingMatched { files } => {
                let mut s = String::from_str("sd3: no adapter target modules matched across ");
                s.append(decimal_of(*files).as_str());
                s.append(
                    " file(s) — expected a kohya `lora_sd3` file (`lora_unet_joint_blocks_<i>_<x|context>_block_…`, fused `attn_qkv`) or a diffusers-named LoRA (`transformer_blocks.<i>.attn.<to_q|to_k|to_v|to_out.0>` …). Conv-layer / text-encoder adapters are out of surface",
                );
                s
            },
        }
    }
}

/// The factors of a LoRA are told by their keys, in the naming of either trainer: what goes down to the
/// rank, what comes up from it, and the module's own alpha.
pub proof fn law_lora_keys_read_back(stem: Seq<char>)
    ensures
        lora_role(stem + ".lora_down.weight"@) == Some((stem, Role::Down)),
        lora_role(stem + ".lora_up.weight"@) == Some((stem, Role::Up)),
        lora_role(stem + ".lora_A.default.weight"@) == Some((stem, Role::Down)),
        lora_role(stem + ".lora_B.default.weight"@) == Some((stem, Role::Up)),
        lora_role(stem + ".lora_A.weight"@) == Some((stem, Role::Down)),
        lora_role(stem + ".lora_B.weight"@) == Some((stem, Role::Up)),
        lora_role(stem + ".alpha"@) == Some((stem, Role::Alpha)),
{
    reveal_strlit(".lora_down.weight");
    reveal_strlit(".lora_up.weight");
    reveal_strlit(".lora_A.default.weight");
    reveal_strlit(".lora_B.default.weight");
    reveal_strlit(".lora_A.weight");
    reveal_strlit(".lora_B.weight");
    reveal_strlit(".alpha");
    let (down, up) = (".lora_down.weight"@, ".lora_up.weight"@);
    let (da, db) = (".lora_A.default.weight"@, ".lora_B.default.weight"@);
    let (a, b, alpha) = (".lora_A.weight"@, ".lora_B.weight"@, ".alpha"@);
    lemma_suffix_leaves(stem, down);
    lemma_suffix_leaves(stem, up);
    lemma_suffix_leaves(stem, da);
    lemma_suffix_leaves(stem, db);
    lemma_suffix_leaves(stem, a);
    lemma_suffix_leaves(stem, b);
    lemma_suffix_leaves(stem, alpha);
    lemma_other_end(stem, up, down, 8);
    lemma_other_end(stem, da, down, 8);
    lemma_other_end(stem, da, up, 8);
    lemma_other_end(stem, db, down, 8);
    lemma_other_end(stem, db, up, 8);
    lemma_other_end(stem, db, da, 16);
    lemma_other_end(stem, a, down, 8);
    lemma_other_end(stem, a, up, 8);
    lemma_other_end(stem, a, da, 8);
    lemma_other_end(stem, a, db, 8);
    lemma_other_end(stem, b, down, 8);
    lemma_other_end(stem, b, up, 8);
    lemma_other_end(stem, b, da, 8);
    lemma_other_end(stem, b, db, 8);
    lemma_other_end(stem, b, a, 8);
    lemma_other_end(stem, alpha, down, 1);
    lemma_other_end(stem, alpha, up, 1);
    lemma_other_end(stem, alpha, da, 1);
    lemma_other_end(stem, alpha, db, 1);
    lemma_other_end(stem, alpha, a, 1);
    lemma_other_end(stem, alpha, b, 1);
}

/// A fold adds whole rows of the delta to the weight that its target names, and only to a weight of
/// their shape: all rows where the target takes the whole delta, and the rows of its part, in the order
/// of the parts, where it takes one of several.
pub proof fn law_folds_are_those_of_their_target(
    base: Seq<(Seq<char>, Seq<usize>)>,
    path: Seq<char>,
    index: usize,
    parts: usize,
    rows: usize,
    cols: usize,
    b: int,
)
    requires
        index < parts,
        base.len() <= usize::MAX,
    ensures
        fold_of(base, whole(path), rows, cols) matches Some(f) ==> {
            &&& 0 <= f.base < base.len() && base[f.base as int].0 == path + ".weight"@
            &&& base[f.base as int].1 == seq![rows, cols]
            &&& f.first_row == 0 && f.rows == rows
        },
        fold_of(base, slice(path, index, parts), rows, cols) matches Some(f) ==> {
            &&& 0 <= f.base < base.len() && base[f.base as int].0 == path + ".weight"@
            &&& base[f.base as int].1 == seq![f.rows, cols]
            &&& f.rows * parts == rows && f.first_row == index * f.rows
        },
        is_first(base, path + ".weight"@, b) && base[b].1 == seq![rows, cols]
            ==> fold_of(base, whole(path), rows, cols) == Some(
            Fold { base: b as usize, first_row: 0, rows },
        ),
{
    let key = path + ".weight"@;
    if let Some(p) = position(base, key) {
        assert(is_first(base, key, p));
    }
    if is_first(base, key, b) {
        lemma_position(base, key, b);
    }
    assert(rows as int / 1 == rows && rows as int % 1 == 0);
    assert(0 * (rows as int / 1) == 0);
    let count = rows as int / parts as int;
    if rows as int % parts as int == 0 {
        vstd::arithmetic::div_mod::lemma_fundamental_div_mod(rows as int, parts as int);
        assert(count * parts == rows && index * count <= rows && index * count >= 0)
            by (nonlinear_arith)
            requires
                rows == parts * count,
                index < parts,
                rows >= 0,
                parts > 0,
                index >= 0,
        ;
        assert(0 <= count <= rows) by (nonlinear_arith)
            requires
                count * parts == rows,
                parts >= 1,
                rows >= 0,
        ;
    }
}

/// A LoRA module that is merged is the product of its own two factors, which meet in the rank. Every
/// one of its targets is either folded into or counted as missed, and its metadata is looked up under
/// its first target.
pub proof fn law_lora_modules_are_products(
    base: Seq<(Seq<char>, Seq<usize>)>,
    tensors: Seq<(Seq<char>, Seq<usize>)>,
    table: Map<Seq<char>, Seq<char>>,
    stem: Seq<char>,
)
    ensures
        lora_outcome(base, tensors, table, stem) matches LoraOutcome::Merge {
            config,
            down,
            up,
            alpha,
            rank,
            folds: f,
            missed,
        } ==> {
            let t = stem_targets(stem, table)->0;
            &&& 0 <= down < tensors.len() && lora_role(tensors[down].0) == Some((stem, Role::Down))
            &&& 0 <= up < tensors.len() && lora_role(tensors[up].0) == Some((stem, Role::Up))
            &&& alpha matches Some(a) ==> lora_role(tensors[a].0) == Some((stem, Role::Alpha))
            &&& tensors[down].1.len() == 2 && tensors[up].1.len() == 2
            &&& rank == tensors[down].1[0] && rank == tensors[up].1[1]
            &&& f == folds(base, t, tensors[up].1[0], tensors[down].1[1], t.len() as int)
            &&& f.len() + missed == t.len()
            &&& config == t[0].0
        },
{
    let m = lora_marks(tensors);
    let n = tensors.len() as int;
    law_slot_is_the_last_of_its_mark(m, stem, 0, n);
    law_slot_is_the_last_of_its_mark(m, stem, 1, n);
    law_slot_is_the_last_of_its_mark(m, stem, 2, n);
    if let Some(i) = slot_of(m, stem, 0, n) {
        assert(m[i] == Some((stem, 0int)));
    }
    if let Some(i) = slot_of(m, stem, 1, n) {
        assert(m[i] == Some((stem, 1int)));
    }
    if let Some(i) = slot_of(m, stem, 2, n) {
        assert(m[i] == Some((stem, 2int)));
    }
}

/// A LoRA module whose two matrices do not meet in one rank is refused, a half pair is skipped, and a
/// pair that meets is merged, wherever its stem resolves.
pub proof fn law_lora_pairs_must_meet(
    base: Seq<(Seq<char>, Seq<usize>)>,
    tensors: Seq<(Seq<char>, Seq<usize>)>,
    table: Map<Seq<char>, Seq<char>>,
    stem: Seq<char>,
    d: int,
    u: int,
)
    requires
        stem_targets(stem, table) is Some,
        slot_of(lora_marks(tensors), stem, Role::Down.slot(), tensors.len() as int) == Some(d),
        slot_of(lora_marks(tensors), stem, Role::Up.slot(), tensors.len() as int) == Some(u),
        tensors[d].1.len() == 2,
        tensors[u].1.len() == 2,
    ensures
        tensors[d].1[0] == tensors[u].1[1] <==> lora_outcome(base, tensors, table, stem) is Merge,
        tensors[d].1[0] != tensors[u].1[1] <==> lora_outcome(base, tensors, table, stem) is Mismatch,
{
}

/// The delta of a LoKr module has the shape of the weight that it goes to, with as many times its rows
/// as that weight is parts of it. Its targets are folded into or counted as missed.
pub proof fn law_lokr_modules_fill_their_targets(
    base: Seq<(Seq<char>, Seq<usize>)>,
    tensors: Seq<(Seq<char>, Seq<usize>)>,
    table: Map<Seq<char>, Seq<char>>,
    stem: Seq<char>,
)
    requires
        rows_fit(base),
    ensures
        lokr_outcome(base, tensors, table, stem) matches LokrOutcome::Merge {
            stem: s,
            rows,
            cols,
            folds: f,
            missed,
        } ==> {
            let t = stem_targets(stem, table)->0;
            &&& s == stem && f.len() + missed == t.len()
            &&& f == folds(base, t, rows, cols, t.len() as int)
            &&& exists|b: int|
                {
                    &&& #[trigger] is_first(base, t[0].0 + ".weight"@, b)
                    &&& base[b].1.len() == 2 && cols == base[b].1[1]
                    &&& rows == base[b].1[0] * t.len()
                }
        },
{
    law_targets_partition_the_delta(stem, table);
    if let Some(t) = stem_targets(stem, table) {
        let key = t[0].0 + ".weight"@;
        if let Some(p) = position(base, key) {
            assert(is_first(base, key, p));
            if base[p].1.len() == 2 {
                assert(base[p].1[0] * 1 == base[p].1[0]);
            }
        }
    }
}

/// A LoKr file is scaled by the rank and the alpha of its own metadata, each under its own name.
pub proof fn law_lokr_files_carry_their_strengths(
    p: &LokrPlan,
    base: Seq<(Seq<char>, Seq<usize>)>,
    af: &AdapterFile,
    table: Map<Seq<char>, Seq<char>>,
)
    requires
        is_lokr_plan(p, base, af, table),
    ensures
        p.rank matches Some(s) ==> af.meta_value("rank"@) == Some(s@),
        p.rank is None ==> af.meta_value("rank"@) is None,
        p.alpha matches Some(s) ==> af.meta_value("alpha"@) == Some(s@),
        p.alpha is None ==> af.meta_value("alpha"@) is None,
{
}

/// A file counts what its modules update and skip, and every key that is no factor once more as
/// skipped; a run counts its files together.
pub proof fn law_reports_add_up(
    base: Seq<(Seq<char>, Seq<usize>)>,
    table: Map<Seq<char>, Seq<char>>,
    specs: Seq<AdapterSpec>,
    files: Seq<(AdapterFile, FilePlan)>,
    o: Seq<LoraOutcome>,
    k: int,
)
    requires
        0 <= k < o.len(),
        k < files.len(),
        file_totals(base, table, specs[k].kind, &files[k].0) is Some,
    ensures
        lora_totals(o, k + 1).0 == lora_totals(o, k).0 + o[k].merged(),
        lora_totals(o, k + 1).1 == lora_totals(o, k).1 + o[k].skipped(),
        ({
            let t = file_totals(base, table, specs[k].kind, &files[k].0)->0;
            &&& run_totals(base, table, specs, files, k + 1).0 == run_totals(
                base,
                table,
                specs,
                files,
                k,
            ).0 + t.0
            &&& run_totals(base, table, specs, files, k + 1).1 == run_totals(
                base,
                table,
                specs,
                files,
                k,
            ).1 + t.1
        }),
{
}

/// What is merged of a LoRA file is every outcome that merges, and in the order of the modules.
pub proof fn law_every_lora_merge_is_planned(o: Seq<LoraOutcome>, k: int)
    requires
        0 <= k <= o.len(),
    ensures
        lora_merges(o, k) == o.take(k).filter(|x: LoraOutcome| x is Merge),
    decreases k,
{
    reveal(Seq::filter);
    if k > 0 {
        law_every_lora_merge_is_planned(o, k - 1);
        assert(o.take(k).drop_last() =~= o.take(k - 1));
        assert(o.take(k).last() == o[k - 1]);
    } else {
        assert(o.take(0) =~= Seq::empty());
    }
}

/// What is merged of a LoKr file is every outcome that merges, and in the order of the modules.
pub proof fn law_every_lokr_merge_is_planned(o: Seq<LokrOutcome>, k: int)
    requires
        0 <= k <= o.len(),
    ensures
        lokr_merges(o, k) == o.take(k).filter(|x: LokrOutcome| x is Merge),
        k < o.len() ==> lokr_totals(o, k + 1).0 - lokr_totals(o, k).0 == o[k].merged(),
        k < o.len() ==> lokr_totals(o, k + 1).1 - lokr_totals(o, k).1 == o[k].skipped(),
    decreases k,
{
    reveal(Seq::filter);
    if k > 0 {
        law_every_lokr_merge_is_planned(o, k - 1);
        assert(o.take(k).drop_last() =~= o.take(k - 1));
        assert(o.take(k).last() == o[k - 1]);
    } else {
        assert(o.take(0) =~= Seq::empty());
    }
}

/// A LoRA module to merge is that of its outcome, field for field.
pub proof fn law_lora_modules_are_their_outcomes(md: LoraModule, o: LoraOutcome)
    requires
        md.is(o),
    ensures
        o matches LoraOutcome::Merge { config, down, up, alpha, rank, folds, .. } && {
            &&& md.config_path@ == config
            &&& md.down == down && md.up == up && md.rank == rank
            &&& md.folds@ == folds
            &&& md.alpha is Some <==> alpha is Some
            &&& md.alpha is Some ==> md.alpha->0 == alpha->0
        },
{
}

/// A LoKr module to merge has the factors that its own tensors are: each slot holds a tensor that is
/// marked as the module's and as of that slot, or none is.
pub proof fn law_lokr_modules_carry_their_factors(
    md: LokrModule,
    o: LokrOutcome,
    m: Seq<Option<(Seq<char>, int)>>,
    s: int,
)
    requires
        md.is(o, m),
        0 <= s < SLOTS,
    ensures
        o matches LokrOutcome::Merge { stem, rows, cols, folds, .. } && {
            &&& md.rows == rows && md.cols == cols && md.folds@ == folds
            &&& md.factors.len() == SLOTS
            &&& match md.factors[s] {
                Some(i) => i < m.len() && m[i as int] == Some((stem, s)),
                None => forall|i: int| 0 <= i < m.len() ==> #[trigger] m[i] != Some((stem, s)),
            }
        },
{
    if let LokrOutcome::Merge { stem, .. } = o {
        crate::grouping::law_slot_is_the_last_of_its_mark(m, stem, s, m.len() as int);
    }
}

/// Which files can be merged: every LoKr, and a LoRA whose own metadata does not say that it is a LoKr
/// and whose factors multiply. Its totals are those of its modules, and what belongs to no module is
/// skipped.
pub proof fn law_files_that_can_be_merged_are(
    base: Seq<(Seq<char>, Seq<usize>)>,
    table: Map<Seq<char>, Seq<char>>,
    kind: AdapterKind,
    af: &AdapterFile,
)
    ensures
        ({
            let e = af.entries();
            let lora = lora_outcomes(base, e, table);
            let lokr = lokr_outcomes(base, e, table);
            let t = file_totals(base, table, kind, af);
            &&& t is None <==> kind == AdapterKind::Lora && (af.meta_value("networkType"@) == Some(
                "lokr"@,
            ) || exists|i: int| 0 <= i < lora.len() && (#[trigger] lora[i]) is Mismatch)
            &&& t is Some && kind == AdapterKind::Lora ==> (t->0).0 == lora_totals(
                lora,
                lora.len() as int,
            ).0 && (t->0).1 == lora_totals(lora, lora.len() as int).1 + unmarked(
                lora_marks(e),
                e.len() as int,
            )
            &&& kind == AdapterKind::Lokr ==> (t->0).0 == lokr_totals(lokr, lokr.len() as int).0 && (
            t->0).1 == lokr_totals(lokr, lokr.len() as int).1 + unmarked(lokr_marks(e), e.len() as int)
        }),
{
}

/// A plan is that of its file: of the format that the file was declared as, with a module for each that
/// merges.
pub proof fn law_plans_are_of_their_files(
    p: &FilePlan,
    base: Seq<(Seq<char>, Seq<usize>)>,
    table: Map<Seq<char>, Seq<char>>,
    kind: AdapterKind,
    af: &AdapterFile,
    i: int,
)
    requires
        is_file_plan(p, base, table, kind, af),
    ensures
        match *p {
            FilePlan::Lora(v) => {
                let o = lora_outcomes(base, af.entries(), table).filter(
                    |x: LoraOutcome| x is Merge,
                );
                &&& kind == AdapterKind::Lora
                &&& v.len() == o.len()
                &&& 0 <= i < v.len() ==> v[i].is(o[i])
            },
            FilePlan::Lokr(l) => {
                let o = lokr_outcomes(base, af.entries(), table).filter(
                    |x: LokrOutcome| x is Merge,
                );
                &&& kind == AdapterKind::Lokr
                &&& l.modules.len() == o.len()
                &&& 0 <= i < l.modules.len() ==> l.modules[i].is(o[i], lokr_marks(af.entries()))
            },
        },
{
    let a = lora_outcomes(base, af.entries(), table);
    let b = lokr_outcomes(base, af.entries(), table);
    law_every_lora_merge_is_planned(a, a.len() as int);
    law_every_lokr_merge_is_planned(b, b.len() as int);
    assert(a.take(a.len() as int) =~= a);
    assert(b.take(b.len() as int) =~= b);
}

/// Every file of a run has its plan: that of its own bytes and its own declaration.
pub proof fn law_runs_plan_every_file(
    base: Seq<(Seq<char>, Seq<usize>)>,
    table: Map<Seq<char>, Seq<char>>,
    specs: Seq<AdapterSpec>,
    bytes: Seq<Vec<u8>>,
    files: Seq<(AdapterFile, FilePlan)>,
    i: int,
)
    requires
        planned(base, table, specs, bytes, files),
        0 <= i < files.len(),
    ensures
        is_adapter_of(&files[i].0, bytes[i]@),
        file_totals(base, table, specs[i].kind, &files[i].0) is Some,
        is_file_plan(&files[i].1, base, table, specs[i].kind, &files[i].0),
        run_totals(base, table, specs, files, 0) == (0int, 0int),
{
    let f = files[i];
}

/// A module that is skipped or does not multiply updates nothing; one that merges updates a weight for
/// each of its folds, and skips the targets that it missed.
pub proof fn law_outcomes_count_what_they_do(o: LoraOutcome, l: LokrOutcome)
    ensures
        !(o is Merge) ==> o.merged() == 0,
        o is Mismatch ==> o.skipped() == 0,
        o matches LoraOutcome::Skipped(k) ==> o.skipped() == k,
        o matches LoraOutcome::Merge { folds, missed, .. } ==> o.merged() == folds.len() && o.skipped()
            == missed,
        !(l is Merge) ==> l.merged() == 0,
        l matches LokrOutcome::Skipped(k) ==> l.skipped() == k,
        l matches LokrOutcome::Merge { folds, missed, .. } ==> l.merged() == folds.len() && l.skipped()
            == missed,
{
}

/// How a module that is not merged is counted: one that names nothing by each factor that it has; a half
/// pair, a pair that is not of matrices and a LoKr whose targets have no common shape once.
pub proof fn law_skipped_modules_are_counted(
    base: Seq<(Seq<char>, Seq<usize>)>,
    tensors: Seq<(Seq<char>, Seq<usize>)>,
    table: Map<Seq<char>, Seq<char>>,
    stem: Seq<char>,
)
    ensures
        ({
            let m = lora_marks(tensors);
            let n = tensors.len() as int;
            let has = |s: int| slot_of(m, stem, s, n) is Some;
            let one = |b: bool|
                if b {
                    1int
                } else {
                    0int
                };
            let o = lora_outcome(base, tensors, table, stem);
            &&& stem_targets(stem, table) is None ==> !(o is Merge || o is Mismatch) && o.skipped()
                == one(has(0)) + one(has(1)) + one(has(2))
            &&& stem_targets(stem, table) is Some && !(has(0) && has(1)) ==> o == LoraOutcome::Skipped(1)
            &&& stem_targets(stem, table) is Some && has(0) && has(1) && (tensors[slot_of(
                m,
                stem,
                0,
                n,
            )->0].1.len() != 2 || tensors[slot_of(m, stem, 1, n)->0].1.len() != 2) ==> o
                == LoraOutcome::Skipped(1)
        }),
        stem_targets(stem, table) matches Some(t) ==> (full_shape(base, t) is None ==> lokr_outcome(
            base,
            tensors,
            table,
            stem,
        ) == LokrOutcome::Skipped(1)),
        stem_targets(stem, table) is None ==> lokr_outcome(base, tensors, table, stem)
            == LokrOutcome::Skipped(factor_count(lokr_marks(tensors), stem, tensors.len() as int)),
{
}

} // verus!
