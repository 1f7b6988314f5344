//! The SDXL adapter merge: which module's delta is added to which UNet weight, for the trainer's own
//! adapters and for the community formats, and what falls outside the surface.
use super::naming::{kohya_path, opt_string, resolve_kohya_stem};
use crate::adapter::{
    build_table, distinct, entries, find_tensor, is_adapter_of, is_first, is_readable, kohya_rows,
    lemma_position, lemma_total_grows, position, read_adapter, table_path, total_len, AdapterFile,
    KohyaTable, TensorEntry,
};
use crate::factors::{
    law_lokr_keys_are_spelled_out, law_lokr_keys_read_back, lemma_suffix_put_back, lokr_name, lokr_slot,
    split_lokr_slot, split_view, Role,
};
use crate::grouping::{
    group, law_slot_is_the_last_of_its_mark, law_stem_list, marks, slot_of, stem_list, stems,
    unmarked, Group, Mark, SLOTS,
};
use crate::request::{AdapterKind, AdapterSpec};
use crate::text::{
    contains, decimal, decimal_of, ends, has_part, has_prefix, join, starts, strip_prefix, strip_suffix, without_prefix,
    without_suffix,
};
use vstd::prelude::*;
use vstd::string::*;

verus! {

/// What a merge did: how many base weights it updated, and how many keys fell outside its surface.
#[derive(Clone, Copy, Debug, PartialEq, Eq, Structural)]
pub struct MergeReport {
    pub merged: usize,
    pub skipped_keys: usize,
}

impl Default for MergeReport {
    fn default() -> (r: Self)
        ensures
            r == (MergeReport { merged: 0, skipped_keys: 0 }),
    {
        MergeReport { merged: 0, skipped_keys: 0 }
    }
}

/// A key without the optional module prefix that the trainer writes.
pub open spec fn unprefixed(key: Seq<char>) -> Seq<char> {
    match without_prefix(key, "base_model.model.unet."@) {
        Some(s) => s,
        None => key,
    }
}

fn strip_unet_prefix<'a>(key: &'a str) -> (r: &'a str)
    ensures
        r@ == unprefixed(key@),
{
    match strip_prefix(key, "base_model.model.unet.") {
        Some(s) => s,
        None => key,
    }
}

/// The factor suffixes of flattened community keys.
pub open spec fn kohya_role(rem: Seq<char>) -> Option<(Seq<char>, Role)> {
    if let Some(s) = without_suffix(rem, ".lora_down.weight"@) {
        Some((s, Role::Down))
    } else if let Some(s) = without_suffix(rem, ".lora_up.weight"@) {
        Some((s, Role::Up))
    } else if let Some(s) = without_suffix(rem, ".alpha"@) {
        Some((s, Role::Alpha))
    } else {
        None
    }
}

/// The factor suffixes of dotted keys.
pub open spec fn dotted_role(rem: Seq<char>) -> Option<(Seq<char>, Role)> {
    if let Some(s) = without_suffix(rem, ".lora_A.default.weight"@) {
        Some((s, Role::Down))
    } else if let Some(s) = without_suffix(rem, ".lora_B.default.weight"@) {
        Some((s, Role::Up))
    } else if let Some(s) = without_suffix(rem, ".lora_A.weight"@) {
        Some((s, Role::Down))
    } else if let Some(s) = without_suffix(rem, ".lora_B.weight"@) {
        Some((s, Role::Up))
    } else if let Some(s) = without_suffix(rem, ".alpha"@) {
        Some((s, Role::Alpha))
    } else {
        None
    }
}

/// The dotted path and the role of a LoRA key: a flattened key resolves through the table, a text
/// encoder's is outside the surface, and any other resolves directly.
pub open spec fn lora_class(key: Seq<char>, table: Map<Seq<char>, Seq<char>>) -> Option<
    (Seq<char>, Role),
> {
    match without_prefix(key, "lora_unet_"@) {
        Some(rem) => match kohya_role(rem) {
            Some((stem, role)) => match kohya_path(stem, table) {
                Some(p) => Some((p, role)),
                None => None,
            },
            None => None,
        },
        None => if starts(key, "lora_te"@) {
            None
        } else {
            dotted_role(unprefixed(key))
        },
    }
}

fn split_kohya_role<'a>(rem: &'a str) -> (r: Option<(&'a str, Role)>)
    ensures
        split_view(r) == kohya_role(rem@),
{
    if let Some(s) = strip_suffix(rem, ".lora_down.weight") {
        Some((s, Role::Down))
    } else if let Some(s) = strip_suffix(rem, ".lora_up.weight") {
        Some((s, Role::Up))
    } else if let Some(s) = strip_suffix(rem, ".alpha") {
        Some((s, Role::Alpha))
    } else {
        None
    }
}

fn split_dotted_role<'a>(rem: &'a str) -> (r: Option<(&'a str, Role)>)
    ensures
        split_view(r) == dotted_role(rem@),
{
    if let Some(s) = strip_suffix(rem, ".lora_A.default.weight") {
        Some((s, Role::Down))
    } else if let Some(s) = strip_suffix(rem, ".lora_B.default.weight") {
        Some((s, Role::Up))
    } else if let Some(s) = strip_suffix(rem, ".lora_A.weight") {
        Some((s, Role::Down))
    } else if let Some(s) = strip_suffix(rem, ".lora_B.weight") {
        Some((s, Role::Up))
    } else if let Some(s) = strip_suffix(rem, ".alpha") {
        Some((s, Role::Alpha))
    } else {
        None
    }
}

/// The characters of an optional classification.
pub open spec fn class_view<T>(r: Option<(String, T)>) -> Option<(Seq<char>, T)> {
    match r {
        Some((s, t)) => Some((s@, t)),
        None => None,
    }
}

/// Maps a LoRA key to its dotted path and role; `None` is outside the UNet surface.
pub fn classify_lora_key(key: &str, table: &KohyaTable) -> (r: Option<(String, Role)>)
    ensures
        class_view(r) == lora_class(key@, table@),
{
    if let Some(rem) = strip_prefix(key, "lora_unet_") {
        return match split_kohya_role(rem) {
            Some((stem, role)) => match resolve_kohya_stem(stem, table) {
                Some(p) => Some((p, role)),
                None => None,
            },
            None => None,
        };
    }
    if has_prefix(key, "lora_te") {
        return None;
    }
    match split_dotted_role(strip_unet_prefix(key)) {
        Some((path, role)) => Some((String::from_str(path), role)),
        None => None,
    }
}

/// The dotted path and the factor slot of a LoKr key; a text encoder's is outside the surface.
pub open spec fn lokr_class(key: Seq<char>, table: Map<Seq<char>, Seq<char>>) -> Option<
    (Seq<char>, usize),
> {
    match lokr_slot(key) {
        Some((stem, k)) => match without_prefix(stem, "lora_unet_"@) {
            Some(flat) => match kohya_path(flat, table) {
                Some(p) => Some((p, k)),
                None => None,
            },
            None => if starts(stem, "lora_te"@) {
                None
            } else {
                Some((unprefixed(stem), k))
            },
        },
        None => None,
    }
}

/// Maps a LoKr key to its dotted path and factor slot; `None` is outside the UNet surface.
pub fn classify_lokr_key(key: &str, table: &KohyaTable) -> (r: Option<(String, usize)>)
    ensures
        class_view(r) == lokr_class(key@, table@),
        r matches Some((_, k)) ==> k < 6,
{
    match split_lokr_slot(key) {
        Some((stem, k)) => {
            if let Some(flat) = strip_prefix(stem, "lora_unet_") {
                match resolve_kohya_stem(flat, table) {
                    Some(p) => Some((p, k)),
                    None => None,
                }
            } else if has_prefix(stem, "lora_te") {
                None
            } else {
                Some((String::from_str(strip_unet_prefix(stem)), k))
            }
        },
        None => None,
    }
}

/// The slot of a third-party module's own alpha.
pub const ALPHA_SLOT: usize = 6;

/// The slot of the tucker cores, which only convolutions have.
pub const TUCKER_SLOT: usize = 7;

/// The raw module and the slot of an untagged LoKr factor.
pub open spec fn tp_lokr_slot(key: Seq<char>) -> Option<(Seq<char>, usize)> {
    match lokr_slot(key) {
        Some(x) => Some(x),
        None => match without_suffix(key, ".lokr_t2"@) {
            Some(s) => Some((s, TUCKER_SLOT)),
            None => None,
        },
    }
}

/// The raw module and the slot of a LoHa factor: two low-rank pairs, and the tucker cores.
pub open spec fn tp_loha_slot(key: Seq<char>) -> Option<(Seq<char>, usize)> {
    if let Some(s) = without_suffix(key, ".hada_w1_a"@) {
        Some((s, 0))
    } else if let Some(s) = without_suffix(key, ".hada_w1_b"@) {
        Some((s, 1))
    } else if let Some(s) = without_suffix(key, ".hada_w2_a"@) {
        Some((s, 2))
    } else if let Some(s) = without_suffix(key, ".hada_w2_b"@) {
        Some((s, 3))
    } else if let Some(s) = without_suffix(key, ".hada_t1"@) {
        Some((s, TUCKER_SLOT))
    } else if let Some(s) = without_suffix(key, ".hada_t2"@) {
        Some((s, TUCKER_SLOT))
    } else {
        None
    }
}

fn split_tp_lokr<'a>(key: &'a str) -> (r: Option<(&'a str, usize)>)
    ensures
        split_view(r) == tp_lokr_slot(key@),
        r matches Some((_, k)) ==> k < SLOTS,
{
    match split_lokr_slot(key) {
        Some(x) => Some(x),
        None => match strip_suffix(key, ".lokr_t2") {
            Some(s) => Some((s, TUCKER_SLOT)),
            None => None,
        },
    }
}

fn split_tp_loha<'a>(key: &'a str) -> (r: Option<(&'a str, usize)>)
    ensures
        split_view(r) == tp_loha_slot(key@),
        r matches Some((_, k)) ==> k < SLOTS,
{
    if let Some(s) = strip_suffix(key, ".hada_w1_a") {
        Some((s, 0))
    } else if let Some(s) = strip_suffix(key, ".hada_w1_b") {
        Some((s, 1))
    } else if let Some(s) = strip_suffix(key, ".hada_w2_a") {
        Some((s, 2))
    } else if let Some(s) = strip_suffix(key, ".hada_w2_b") {
        Some((s, 3))
    } else if let Some(s) = strip_suffix(key, ".hada_t1") {
        Some((s, TUCKER_SLOT))
    } else if let Some(s) = strip_suffix(key, ".hada_t2") {
        Some((s, TUCKER_SLOT))
    } else {
        None
    }
}

/// The tensor has at least one element.
pub open spec fn has_elements(dims: Seq<usize>) -> bool {
    forall|i: int| 0 <= i < dims.len() ==> #[trigger] dims[i] != 0
}

fn nonempty(dims: &Vec<usize>) -> (r: bool)
    ensures
        r == has_elements(dims@),
{
    let mut i: usize = 0;
    while i < dims.len()
        invariant
            i <= dims.len(),
            forall|k: int| 0 <= k < i ==> #[trigger] dims@[k] != 0,
        decreases dims.len() - i,
    {
        if dims[i] == 0 {
            return false;
        }
        i += 1;
    }
    true
}

/// The formats that an adapter file can have.
#[derive(Clone, Copy, Debug, PartialEq, Eq, Structural)]
pub enum Family {
    Lora,
    /// LoKr with a file-wide rank and alpha.
    Lokr,
    /// Untagged LoKr, scaled module by module.
    ThirdPartyLokr,
    /// LoHa, scaled module by module.
    ThirdPartyLoha,
}

/// The module and the slot of one tensor. A third-party alpha without elements is no factor.
pub open spec fn mark_of(
    family: Family,
    table: Map<Seq<char>, Seq<char>>,
    t: (Seq<char>, Seq<usize>),
) -> Option<(Seq<char>, int)> {
    match family {
        Family::Lora => match lora_class(t.0, table) {
            Some((p, role)) => Some((p, role.slot())),
            None => None,
        },
        Family::Lokr => match lokr_class(t.0, table) {
            Some((p, k)) => Some((p, k as int)),
            None => None,
        },
        _ => match without_suffix(t.0, ".alpha"@) {
            Some(raw) => if has_elements(t.1) {
                Some((raw, ALPHA_SLOT as int))
            } else {
                None
            },
            None => match if family == Family::ThirdPartyLokr {
                tp_lokr_slot(t.0)
            } else {
                tp_loha_slot(t.0)
            } {
                Some((raw, k)) => Some((raw, k as int)),
                None => None,
            },
        },
    }
}

/// The marks of a file's tensors.
pub open spec fn file_marks(
    family: Family,
    table: Map<Seq<char>, Seq<char>>,
    tensors: Seq<(Seq<char>, Seq<usize>)>,
) -> Seq<Option<(Seq<char>, int)>> {
    tensors.map_values(|t: (Seq<char>, Seq<usize>)| mark_of(family, table, t))
}

fn mark(family: Family, table: &KohyaTable, t: &TensorEntry) -> (r: Mark)
    ensures
        match r {
            Some((s, k)) => mark_of(family, table@, (t.name@, t.dims@)) == Some((s@, k as int))
                && k < SLOTS,
            None => mark_of(family, table@, (t.name@, t.dims@)) is None,
        },
{
    let key = t.name.as_str();
    match family {
        Family::Lora => match classify_lora_key(key, table) {
            Some((p, role)) => Some((p, role.index())),
            None => None,
        },
        Family::Lokr => classify_lokr_key(key, table),
        Family::ThirdPartyLokr => match strip_suffix(key, ".alpha") {
            Some(raw) => if nonempty(&t.dims) {
                Some((String::from_str(raw), ALPHA_SLOT))
            } else {
                None
            },
            None => match split_tp_lokr(key) {
                Some((raw, k)) => Some((String::from_str(raw), k)),
                None => None,
            },
        },
        Family::ThirdPartyLoha => match strip_suffix(key, ".alpha") {
            Some(raw) => if nonempty(&t.dims) {
                Some((String::from_str(raw), ALPHA_SLOT))
            } else {
                None
            },
            None => match split_tp_loha(key) {
                Some((raw, k)) => Some((String::from_str(raw), k)),
                None => None,
            },
        },
    }
}

fn mark_list(family: Family, table: &KohyaTable, tensors: &Vec<TensorEntry>) -> (r: Vec<Mark>)
    ensures
        marks(r@) == file_marks(family, table@, entries(tensors@)),
        forall|i: int| 0 <= i < r.len() ==> ((#[trigger] r[i]) matches Some((_, s)) ==> s < SLOTS),
        r.len() == tensors.len(),
{
    let ghost e = entries(tensors@);
    let ghost want = file_marks(family, table@, e);
    let mut out: Vec<Mark> = Vec::new();
    let mut i: usize = 0;
    while i < tensors.len()
        invariant
            i <= tensors.len(),
            e == entries(tensors@),
            want == file_marks(family, table@, e),
            out.len() == i,
            forall|k: int| 0 <= k < i ==> #[trigger] marks(out@)[k] == want[k],
            forall|k: int|
                0 <= k < i ==> ((#[trigger] out[k]) matches Some((_, s)) ==> s < SLOTS),
        decreases tensors.len() - i,
    {
        let ghost before = out@;
        out.push(mark(family, table, &tensors[i]));
        proof {
            assert(e[i as int] == (tensors[i as int].name@, tensors[i as int].dims@));
            assert forall|k: int| 0 <= k < i + 1 implies #[trigger] marks(out@)[k] == want[k] by {
                if k < i {
                    assert(out@[k] == before[k]);
                    assert(marks(before)[k] == want[k]);
                }
            }
        }
        i += 1;
    }
    proof {
        assert(marks(out@) =~= want);
    }
    out
}

/// The dotted path of a third-party module: its flattened name behind the trainer's prefix.
pub open spec fn third_party_path(raw: Seq<char>, table: Map<Seq<char>, Seq<char>>) -> Option<
    Seq<char>,
> {
    if let Some(flat) = without_prefix(raw, "lora_unet_"@) {
        table_path(table, flat)
    } else if let Some(flat) = without_prefix(raw, "lycoris_"@) {
        table_path(table, flat)
    } else {
        table_path(table, raw)
    }
}

/// Resolves the raw module key of a third-party file.
pub fn resolve_lokr_path(raw: &str, table: &KohyaTable) -> (r: Option<String>)
    ensures
        opt_string(r) == third_party_path(raw@, table@),
{
    let flat = if let Some(flat) = strip_prefix(raw, "lora_unet_") {
        flat
    } else if let Some(flat) = strip_prefix(raw, "lycoris_") {
        flat
    } else {
        raw
    };
    match table.get(flat) {
        Some(p) => Some(p.clone()),
        None => None,
    }
}

/// Why a module's delta cannot be built.
#[derive(Clone, Copy, Debug, PartialEq, Eq, Structural)]
pub enum Fault {
    /// The factors' shapes do not fit together. They tell so before any tensor is multiplied, so the
    /// words are this library's own.
    Shapes,
    /// A leg of a Hadamard pair is missing.
    MissingLeg,
}

/// What becomes of one module.
pub enum Outcome {
    /// Out of the surface.
    Skipped,
    Failed(Fault),
    /// Added to the base weight `base`. The rank is that of the module's own factors, where the
    /// module has one.
    Merge { base: int, stem: Seq<char>, rank: Option<usize>, conv: bool },
}

/// The base weight of a dotted path.
pub open spec fn weight_of(base: Seq<(Seq<char>, Seq<usize>)>, path: Seq<char>) -> Option<int> {
    position(base, path + ".weight"@)
}

/// A LoRA pair: two matrices multiply; two 4-D factors, the second of them 1x1, fuse into a
/// convolution. The delta is merged where the base weight has its shape.
pub open spec fn lora_outcome(
    base: Seq<(Seq<char>, Seq<usize>)>,
    stem: Seq<char>,
    down: Seq<usize>,
    up: Seq<usize>,
) -> Outcome {
    match weight_of(base, stem) {
        None => Outcome::Skipped,
        Some(p) => {
            let w = base[p].1;
            if down.len() == 4 && up.len() == 4 {
                if w.len() != 4 {
                    Outcome::Skipped
                } else if up[1] != down[0] || up[2] != 1 || up[3] != 1 {
                    Outcome::Failed(Fault::Shapes)
                } else if w == seq![up[0], down[1], down[2], down[3]] {
                    Outcome::Merge { base: p, stem, rank: Some(down[0]), conv: true }
                } else {
                    Outcome::Skipped
                }
            } else if down.len() != 2 || up.len() != 2 {
                Outcome::Skipped
            } else if up[1] != down[0] {
                Outcome::Failed(Fault::Shapes)
            } else if w == seq![up[0], down[1]] {
                Outcome::Merge { base: p, stem, rank: Some(down[0]), conv: false }
            } else {
                Outcome::Skipped
            }
        },
    }
}

/// The matrix that a path names, where it names one.
pub open spec fn matrix_of(base: Seq<(Seq<char>, Seq<usize>)>, path: Option<Seq<char>>) -> Option<
    int,
> {
    match path {
        Some(p) => match weight_of(base, p) {
            Some(b) if base[b].1.len() == 2 => Some(b),
            _ => None,
        },
        None => None,
    }
}

/// The rank of an untagged LoKr module: the width of whichever low-rank factor it has. A module with
/// two full factors has none, and is scaled by 1.
pub open spec fn lokr_rank(
    tensors: Seq<(Seq<char>, Seq<usize>)>,
    w1_a: Option<int>,
    w2_a: Option<int>,
) -> Result<Option<usize>, Fault> {
    match if w1_a is Some {
        w1_a
    } else {
        w2_a
    } {
        Some(i) => if tensors[i].1.len() >= 2 {
            Ok(Some(tensors[i].1[1]))
        } else {
            Err(Fault::Shapes)
        },
        None => Ok(None),
    }
}

/// The rank of a LoHa module, which needs all four of its legs.
pub open spec fn loha_rank(
    tensors: Seq<(Seq<char>, Seq<usize>)>,
    w1_a: Option<int>,
    w1_b: Option<int>,
    w2_a: Option<int>,
    w2_b: Option<int>,
) -> Result<Option<usize>, Fault> {
    if w1_a is None || w1_b is None || w2_a is None || w2_b is None {
        Err(Fault::MissingLeg)
    } else if tensors[w1_b->0].1.len() >= 1 {
        Ok(Some(tensors[w1_b->0].1[0]))
    } else {
        Err(Fault::Shapes)
    }
}

/// What becomes of module `stem` of a file. Only a LoRA reaches convolutions; the other formats are
/// merged into matrices alone, at the matrix's own shape.
pub open spec fn outcome(
    family: Family,
    base: Seq<(Seq<char>, Seq<usize>)>,
    tensors: Seq<(Seq<char>, Seq<usize>)>,
    table: Map<Seq<char>, Seq<char>>,
    stem: Seq<char>,
) -> Outcome {
    let m = file_marks(family, table, tensors);
    let n = tensors.len() as int;
    match family {
        Family::Lora => match (slot_of(m, stem, 0, n), slot_of(m, stem, 1, n)) {
            (Some(d), Some(u)) => lora_outcome(base, stem, tensors[d].1, tensors[u].1),
            _ => Outcome::Skipped,
        },
        Family::Lokr => match matrix_of(base, Some(stem)) {
            Some(b) => Outcome::Merge { base: b, stem, rank: None, conv: false },
            None => Outcome::Skipped,
        },
        Family::ThirdPartyLokr => match matrix_of(base, third_party_path(stem, table)) {
            Some(b) => match lokr_rank(
                tensors,
                slot_of(m, stem, 0, n),
                slot_of(m, stem, 3, n),
            ) {
                Ok(rank) => Outcome::Merge { base: b, stem, rank, conv: false },
                Err(f) => Outcome::Failed(f),
            },
            None => Outcome::Skipped,
        },
        Family::ThirdPartyLoha => match matrix_of(base, third_party_path(stem, table)) {
            Some(b) => match loha_rank(
                tensors,
                slot_of(m, stem, 0, n),
                slot_of(m, stem, 1, n),
                slot_of(m, stem, 2, n),
                slot_of(m, stem, 3, n),
            ) {
                Ok(rank) => Outcome::Merge { base: b, stem, rank, conv: false },
                Err(f) => Outcome::Failed(f),
            },
            None => Outcome::Skipped,
        },
    }
}

/// The outcomes of a file's modules, in key order.
pub open spec fn outcomes(
    family: Family,
    base: Seq<(Seq<char>, Seq<usize>)>,
    tensors: Seq<(Seq<char>, Seq<usize>)>,
    table: Map<Seq<char>, Seq<char>>,
) -> Seq<Outcome> {
    stem_list(file_marks(family, table, tensors), tensors.len() as int).map_values(
        |s: Seq<char>| outcome(family, base, tensors, table, s),
    )
}

/// The first fault among the outcomes from `k` on.
pub open spec fn fault_from(o: Seq<Outcome>, k: int) -> Option<Fault>
    decreases o.len() - k,
{
    if k < 0 || k >= o.len() {
        None
    } else if let Outcome::Failed(f) = o[k] {
        Some(f)
    } else {
        fault_from(o, k + 1)
    }
}

/// The outcomes that merge, among the first `k`.
pub open spec fn merges(o: Seq<Outcome>, k: int) -> Seq<Outcome>
    decreases k,
{
    if k <= 0 {
        Seq::empty()
    } else if o[k - 1] is Merge {
        merges(o, k - 1).push(o[k - 1])
    } else {
        merges(o, k - 1)
    }
}

/// One module to merge.
#[derive(Clone, Debug)]
pub struct Module {
    /// The position of the weight among the base tensors.
    pub base: usize,
    /// The dotted path, or the raw key of a third-party module.
    pub stem: String,
    /// The module's factor tensors, by slot.
    pub factors: Vec<Option<usize>>,
    pub rank: Option<usize>,
    pub conv: bool,
}

impl Module {
    /// The module is the given merge, with the factors that its stem has.
    pub open spec fn is(&self, o: Outcome, m: Seq<Option<(Seq<char>, int)>>) -> bool {
        match o {
            Outcome::Merge { base, stem, rank, conv } => {
                &&& self.base == base && self.stem@ == stem && self.rank == rank && self.conv
                    == conv
                &&& self.factors.len() == SLOTS
                &&& forall|s: int|
                    0 <= s < SLOTS ==> match #[trigger] self.factors[s] {
                        Some(i) => slot_of(m, stem, s, m.len() as int) == Some(i as int),
                        None => slot_of(m, stem, s, m.len() as int) is None,
                    }
            },
            _ => false,
        }
    }
}

/// The modules are the given merges.
pub open spec fn are_modules(
    v: Seq<Module>,
    o: Seq<Outcome>,
    m: Seq<Option<(Seq<char>, int)>>,
) -> bool {
    v.len() == o.len() && forall|i: int| 0 <= i < v.len() ==> (#[trigger] v[i]).is(o[i], m)
}

/// What one module's planning decides.
enum Decision {
    Skip,
    Fail(Fault),
    Merge(usize, Option<usize>, bool),
}

/// The decision is that of the outcome.
spec fn decides(d: Decision, o: Outcome, n: int) -> bool {
    match (d, o) {
        (Decision::Skip, Outcome::Skipped) => true,
        (Decision::Fail(f), Outcome::Failed(g)) => f == g,
        (Decision::Merge(b, r, c), Outcome::Merge { base, rank, conv, .. }) => b == base && b < n
            && r == rank && c == conv,
        _ => false,
    }
}

fn weight_position(base: &Vec<TensorEntry>, path: &str) -> (r: Option<usize>)
    ensures
        match r {
            Some(b) => b < base.len() && weight_of(entries(base@), path@) == Some(b as int),
            None => weight_of(entries(base@), path@) is None,
        },
{
    let key = join(path, ".weight");
    find_tensor(base, key.as_str())
}

fn decide_lora(base: &Vec<TensorEntry>, stem: &str, down: &Vec<usize>, up: &Vec<usize>) -> (r:
    Decision)
    ensures
        decides(
            r,
            lora_outcome(entries(base@), stem@, down@, up@),
            base.len() as int,
        ),
{
    let p: usize = match weight_position(base, stem) {
        Some(p) => p,
        None => {
            return Decision::Skip;
        },
    };
    let w = &base[p].dims;
    proof {
        assert(entries(base@)[p as int].1 == w@);
    }
    if down.len() == 4 && up.len() == 4 {
        if w.len() != 4 {
            return Decision::Skip;
        }
        if up[1] != down[0] || up[2] != 1 || up[3] != 1 {
            return Decision::Fail(Fault::Shapes);
        }
        if w[0] == up[0] && w[1] == down[1] && w[2] == down[2] && w[3] == down[3] {
            proof {
                assert(w@ =~= seq![up[0], down[1], down[2], down[3]]);
            }
            return Decision::Merge(p, Some(down[0]), true);
        }
        return Decision::Skip;
    }
    if down.len() != 2 || up.len() != 2 {
        return Decision::Skip;
    }
    if up[1] != down[0] {
        return Decision::Fail(Fault::Shapes);
    }
    if w.len() == 2 && w[0] == up[0] && w[1] == down[1] {
        proof {
            assert(w@ =~= seq![up[0], down[1]]);
        }
        Decision::Merge(p, Some(down[0]), false)
    } else {
        Decision::Skip
    }
}

fn matrix_position(base: &Vec<TensorEntry>, path: &Option<String>) -> (r: Option<usize>)
    ensures
        match r {
            Some(b) => b < base.len() && matrix_of(entries(base@), opt_string(*path)) == Some(
                b as int,
            ),
            None => matrix_of(entries(base@), opt_string(*path)) is None,
        },
{
    match path {
        Some(p) => match weight_position(base, p.as_str()) {
            Some(b) => {
                proof {
                    assert(entries(base@)[b as int].1 == base[b as int].dims@);
                }
                if base[b].dims.len() == 2 {
                    Some(b)
                } else {
                    None
                }
            },
            None => None,
        },
        None => None,
    }
}

fn decide(
    family: Family,
    base: &Vec<TensorEntry>,
    tensors: &Vec<TensorEntry>,
    table: &KohyaTable,
    g: &Group,
) -> (r: Decision)
    requires
        g.holds(file_marks(family, table@, entries(tensors@)), tensors.len() as int),
    ensures
        decides(
            r,
            outcome(family, entries(base@), entries(tensors@), table@, g.stem@),
            base.len() as int,
        ),
{
    let ghost e = entries(tensors@);
    proof {
        assert forall|i: int| 0 <= i < e.len() implies (#[trigger] e[i]).1 == tensors[i].dims@ by {}
    }
    let (s0, s1, s2, s3) = (g.slots[0], g.slots[1], g.slots[2], g.slots[3]);
    match family {
        Family::Lora => match (s0, s1) {
            (Some(d), Some(u)) => decide_lora(
                base,
                g.stem.as_str(),
                &tensors[d].dims,
                &tensors[u].dims,
            ),
            _ => Decision::Skip,
        },
        Family::Lokr => match matrix_position(base, &Some(g.stem.clone())) {
            Some(b) => Decision::Merge(b, None, false),
            None => Decision::Skip,
        },
        Family::ThirdPartyLokr => {
            let path = resolve_lokr_path(g.stem.as_str(), table);
            match matrix_position(base, &path) {
                Some(b) => {
                    let low = if s0.is_some() {
                        s0
                    } else {
                        s3
                    };
                    match low {
                        Some(i) => if tensors[i].dims.len() >= 2 {
                            Decision::Merge(b, Some(tensors[i].dims[1]), false)
                        } else {
                            Decision::Fail(Fault::Shapes)
                        },
                        None => Decision::Merge(b, None, false),
                    }
                },
                None => Decision::Skip,
            }
        },
        Family::ThirdPartyLoha => {
            let path = resolve_lokr_path(g.stem.as_str(), table);
            match matrix_position(base, &path) {
                Some(b) => match (s0, s1, s2, s3) {
                    (Some(_), Some(i), Some(_), Some(_)) => if tensors[i].dims.len() >= 1 {
                        Decision::Merge(b, Some(tensors[i].dims[0]), false)
                    } else {
                        Decision::Fail(Fault::Shapes)
                    },
                    _ => Decision::Fail(Fault::MissingLeg),
                },
                None => Decision::Skip,
            }
        },
    }
}

/// The keys that a file surfaces besides its skipped modules: in the trainer's own formats, those
/// that are no factor.
pub open spec fn strays(
    family: Family,
    tensors: Seq<(Seq<char>, Seq<usize>)>,
    table: Map<Seq<char>, Seq<char>>,
) -> int {
    match family {
        Family::Lora | Family::Lokr => unmarked(
            file_marks(family, table, tensors),
            tensors.len() as int,
        ),
        _ => 0,
    }
}

/// Plans the merge of one file of a known format, and adds what was merged and what was skipped to
/// the report.
pub fn merge_family(
    family: Family,
    base: &Vec<TensorEntry>,
    af: &AdapterFile,
    table: &KohyaTable,
    report: &mut MergeReport,
) -> (r: Result<Vec<Module>, Fault>)
    requires
        old(report).merged + af.tensors.len() <= usize::MAX,
        old(report).skipped_keys + af.tensors.len() <= usize::MAX,
    ensures
        ({
            let o = outcomes(family, entries(base@), af.entries(), table@);
            match r {
                Ok(v) => {
                    let done = merges(o, o.len() as int);
                    &&& fault_from(o, 0) is None
                    &&& are_modules(v@, done, file_marks(family, table@, af.entries()))
                    &&& final(report).merged == old(report).merged + done.len()
                    &&& final(report).skipped_keys == old(report).skipped_keys + (o.len()
                        - done.len()) + strays(family, af.entries(), table@)
                    &&& done.len() <= af.tensors.len()
                    &&& (o.len() - done.len()) + strays(family, af.entries(), table@)
                        <= af.tensors.len()
                },
                Err(f) => fault_from(o, 0) == Some(f) && *final(report) == *old(report),
            }
        }),
{
    let ghost be = entries(base@);
    let ghost e = af.entries();
    let ghost m = file_marks(family, table@, e);
    let marked = mark_list(family, table, &af.tensors);
    let (groups, rest) = group(&marked);
    let ghost o = outcomes(family, be, e, table@);
    proof {
        assert(stems(groups@).len() == groups.len());
        assert(o.len() == groups.len());
    }
    let mut out: Vec<Module> = Vec::new();
    let mut i: usize = 0;
    while i < groups.len()
        invariant
            i <= groups.len(),
            be == entries(base@),
            e == af.entries(),
            m == file_marks(family, table@, e),
            o == outcomes(family, be, e, table@),
            o.len() == groups.len(),
            stems(groups@) == stem_list(m, e.len() as int),
            e.len() == af.tensors.len(),
            m.len() == e.len(),
            forall|g: int|
                0 <= g < groups.len() ==> (#[trigger] groups[g]).holds(m, af.tensors.len() as int),
            *report == *old(report),
            out.len() <= i,
            are_modules(out@, merges(o, i as int), m),
            fault_from(o, 0) == fault_from(o, i as int),
        decreases groups.len() - i,
    {
        let g = &groups[i];
        proof {
            assert(o[i as int] == outcome(family, be, e, table@, g.stem@)) by {
                assert(stems(groups@)[i as int] == g.stem@);
            }
        }
        match decide(family, base, &af.tensors, table, g) {
            Decision::Skip => {},
            Decision::Fail(f) => {
                return Err(f);
            },
            Decision::Merge(b, rank, conv) => {
                let mut factors: Vec<Option<usize>> = Vec::new();
                let mut s: usize = 0;
                while s < SLOTS
                    invariant
                        s <= SLOTS,
                        g.slots.len() == SLOTS,
                        factors@ == g.slots@.take(s as int),
                    decreases SLOTS - s,
                {
                    factors.push(g.slots[s]);
                    proof {
                        assert(factors@ =~= g.slots@.take(s + 1));
                    }
                    s += 1;
                }
                proof {
                    assert(factors@ =~= g.slots@);
                }
                out.push(Module { base: b, stem: g.stem.clone(), factors, rank, conv });
            },
        }
        i += 1;
    }
    let strays: usize = match family {
        Family::Lora => rest,
        Family::Lokr => rest,
        _ => 0,
    };
    report.merged = report.merged + out.len();
    report.skipped_keys = report.skipped_keys + (groups.len() - out.len()) + strays;
    Ok(out)
}

/// Some key of the file contains `part`.
pub open spec fn some_key_has(tensors: Seq<(Seq<char>, Seq<usize>)>, part: Seq<char>) -> bool {
    exists|i: int| 0 <= i < tensors.len() && has_part((#[trigger] tensors[i]).0, part)
}

fn any_key_has(tensors: &Vec<TensorEntry>, part: &str) -> (r: bool)
    ensures
        r == some_key_has(entries(tensors@), part@),
{
    let ghost e = entries(tensors@);
    let mut i: usize = 0;
    while i < tensors.len()
        invariant
            i <= tensors.len(),
            e == entries(tensors@),
            forall|k: int| 0 <= k < i ==> !has_part((#[trigger] e[k]).0, part@),
        decreases tensors.len() - i,
    {
        proof {
            assert(e[i as int].0 == tensors[i as int].name@);
        }
        if contains(tensors[i].name.as_str(), part) {
            return true;
        }
        i += 1;
    }
    false
}

/// The format of a file. The third-party formats are told by their keys, whatever was declared; a
/// LoRA whose metadata says LoKr has none.
pub open spec fn route(kind: AdapterKind, af: &AdapterFile) -> Option<Family> {
    if !af.is_declared_lokr() && some_key_has(af.entries(), ".lokr_"@) {
        Some(Family::ThirdPartyLokr)
    } else if some_key_has(af.entries(), ".hada_"@) {
        Some(Family::ThirdPartyLoha)
    } else if kind == AdapterKind::Lokr {
        Some(Family::Lokr)
    } else if af.is_declared_lokr() {
        None
    } else {
        Some(Family::Lora)
    }
}

/// The format by which a file is merged.
pub fn route_file(kind: AdapterKind, af: &AdapterFile) -> (r: Option<Family>)
    ensures
        r == route(kind, af),
{
    let declared = af.declares_lokr();
    if !declared && any_key_has(&af.tensors, ".lokr_") {
        return Some(Family::ThirdPartyLokr);
    }
    if any_key_has(&af.tensors, ".hada_") {
        return Some(Family::ThirdPartyLoha);
    }
    match kind {
        AdapterKind::Lokr => Some(Family::Lokr),
        AdapterKind::Lora => if declared {
            None
        } else {
            Some(Family::Lora)
        },
    }
}

/// The flattened-name table of the base UNet's linear and convolution weights.
pub fn build_kohya_table(base: &Vec<TensorEntry>) -> (r: KohyaTable)
    ensures
        r.wf(),
        r@ == kohya_rows(entries(base@), true, base.len() as int),
{
    build_table(base, true)
}

/// The plan of one adapter file.
#[derive(Clone, Debug)]
pub struct FilePlan {
    pub file: AdapterFile,
    pub family: Family,
    pub modules: Vec<Module>,
}

/// Why a merge fails.
#[derive(Clone, Debug)]
pub enum MergeError {
    Unreadable { path: String, reason: String },
    /// A file declared a LoRA whose metadata says it is a LoKr.
    KindMismatch { path: String },
    /// A module's delta cannot be built.
    Faulty { fault: Fault },
    /// Nothing matched, over so many files.
    NothingMatched { files: usize },
}

/// The plan is that of a file of the given kind.
pub open spec fn is_file_plan(
    p: &FilePlan,
    base: Seq<(Seq<char>, Seq<usize>)>,
    table: Map<Seq<char>, Seq<char>>,
    kind: AdapterKind,
) -> bool {
    let e = p.file.entries();
    let o = outcomes(p.family, base, e, table);
    &&& route(kind, &p.file) == Some(p.family)
    &&& fault_from(o, 0) is None
    &&& are_modules(p.modules@, merges(o, o.len() as int), file_marks(p.family, table, e))
}

/// The keys that a file surfaces as skipped.
pub open spec fn skips_of(
    p: &FilePlan,
    base: Seq<(Seq<char>, Seq<usize>)>,
    table: Map<Seq<char>, Seq<char>>,
) -> int {
    let e = p.file.entries();
    let o = outcomes(p.family, base, e, table);
    o.len() - merges(o, o.len() as int).len() + strays(p.family, e, table)
}

/// The weights updated and the keys skipped by the first `k` files.
pub open spec fn run_totals(
    base: Seq<(Seq<char>, Seq<usize>)>,
    table: Map<Seq<char>, Seq<char>>,
    plans: Seq<FilePlan>,
    k: int,
) -> (int, int)
    decreases k,
{
    if k <= 0 {
        (0, 0)
    } else {
        let (a, b) = run_totals(base, table, plans, k - 1);
        (a + plans[k - 1].modules.len(), b + skips_of(&plans[k - 1], base, table))
    }
}

/// Every plan is that of the file with its bytes.
pub open spec fn planned(
    base: Seq<(Seq<char>, Seq<usize>)>,
    table: Map<Seq<char>, Seq<char>>,
    specs: Seq<AdapterSpec>,
    bytes: Seq<Vec<u8>>,
    plans: Seq<FilePlan>,
) -> bool {
    forall|i: int|
        0 <= i < plans.len() ==> is_adapter_of(&(#[trigger] plans[i]).file, bytes[i]@)
            && is_file_plan(&plans[i], base, table, specs[i].kind)
}

/// The first file that was not planned has the bytes of an adapter that fails as `fails` says.
pub open spec fn first_failure(
    base: Seq<(Seq<char>, Seq<usize>)>,
    table: Map<Seq<char>, Seq<char>>,
    specs: Seq<AdapterSpec>,
    bytes: Seq<Vec<u8>>,
    fails: spec_fn(AdapterSpec, AdapterFile) -> bool,
) -> bool {
    exists|done: Seq<FilePlan>, af: AdapterFile|
        {
            &&& #[trigger] planned(base, table, specs, bytes, done)
            &&& done.len() < specs.len()
            &&& #[trigger] is_adapter_of(&af, bytes[done.len() as int]@)
            &&& fails(specs[done.len() as int], af)
        }
}

/// The first file that was not planned, declared as at `path`, is no safetensors file.
pub open spec fn first_unreadable(
    base: Seq<(Seq<char>, Seq<usize>)>,
    table: Map<Seq<char>, Seq<char>>,
    specs: Seq<AdapterSpec>,
    bytes: Seq<Vec<u8>>,
    path: Seq<char>,
) -> bool {
    exists|done: Seq<FilePlan>|
        {
            &&& #[trigger] planned(base, table, specs, bytes, done)
            &&& done.len() < specs.len()
            &&& !is_readable(bytes[done.len() as int]@)
            &&& path == specs[done.len() as int].path@
        }
}

proof fn lemma_run_totals_prefix(
    base: Seq<(Seq<char>, Seq<usize>)>,
    table: Map<Seq<char>, Seq<char>>,
    plans: Seq<FilePlan>,
    more: Seq<FilePlan>,
    k: int,
)
    requires
        0 <= k <= plans.len() <= more.len(),
        forall|i: int| 0 <= i < plans.len() ==> plans[i] == more[i],
    ensures
        run_totals(base, table, plans, k) == run_totals(base, table, more, k),
    decreases k,
{
    if k > 0 {
        lemma_run_totals_prefix(base, table, plans, more, k - 1);
    }
}

/// Plans the merge of every adapter into a base UNet: reads each file, finds its format and adds up
/// the report. A run that matches nothing is an error.
pub fn merge_adapters(
    base: &Vec<TensorEntry>,
    specs: &Vec<AdapterSpec>,
    bytes: &Vec<Vec<u8>>,
) -> (r: Result<(Vec<FilePlan>, MergeReport), MergeError>)
    requires
        specs.len() == bytes.len(),
        total_len(bytes@, bytes.len() as int) <= usize::MAX,
    ensures
        ({
            let b = entries(base@);
            let table = kohya_rows(b, true, b.len() as int);
            match r {
                Ok((plans, report)) => {
                    &&& plans.len() == specs.len()
                    &&& planned(b, table, specs@, bytes@, plans@)
                    &&& (report.merged as int, report.skipped_keys as int) == run_totals(
                        b,
                        table,
                        plans@,
                        specs.len() as int,
                    )
                    &&& specs.len() > 0 ==> report.merged > 0
                },
                Err(MergeError::Unreadable { path, .. }) => first_unreadable(
                    b,
                    table,
                    specs@,
                    bytes@,
                    path@,
                ),
                Err(MergeError::KindMismatch { path }) => first_failure(
                    b,
                    table,
                    specs@,
                    bytes@,
                    |spec: AdapterSpec, af: AdapterFile|
                        route(spec.kind, &af) is None && path@ == spec.path@,
                ),
                Err(MergeError::Faulty { fault }) => first_failure(
                    b,
                    table,
                    specs@,
                    bytes@,
                    |spec: AdapterSpec, af: AdapterFile|
                        route(spec.kind, &af) matches Some(family) && fault_from(
                            outcomes(family, b, af.entries(), table),
                            0,
                        ) == Some(fault),
                ),
                Err(MergeError::NothingMatched { files }) => files == specs.len() && files > 0
                    && exists|plans: Seq<FilePlan>|
                    plans.len() == specs.len() && #[trigger] planned(
                        b,
                        table,
                        specs@,
                        bytes@,
                        plans,
                    ) && run_totals(b, table, plans, specs.len() as int).0 == 0,
            }
        }),
{
    let ghost b = entries(base@);
    let table = build_kohya_table(base);
    let mut report = MergeReport { merged: 0, skipped_keys: 0 };
    let mut plans: Vec<FilePlan> = Vec::new();
    let mut i: usize = 0;
    while i < specs.len()
        invariant
            i <= specs.len(),
            specs.len() == bytes.len(),
            b == entries(base@),
            table.wf(),
            table@ == kohya_rows(b, true, b.len() as int),
            total_len(bytes@, bytes.len() as int) <= usize::MAX,
            plans.len() == i,
            planned(b, table@, specs@, bytes@, plans@),
            (report.merged as int, report.skipped_keys as int) == run_totals(
                b,
                table@,
                plans@,
                i as int,
            ),
            report.merged <= total_len(bytes@, i as int),
            report.skipped_keys <= total_len(bytes@, i as int),
        decreases specs.len() - i,
    {
        let file = match read_adapter(bytes[i].as_slice()) {
            Ok(f) => f,
            Err(reason) => {
                proof {
                    assert(!is_readable(bytes@[i as int]@));
                }
                return Err(MergeError::Unreadable { path: specs[i].path.clone(), reason });
            },
        };
        proof {
            assert(is_adapter_of(&file, bytes@[i as int]@));
            lemma_total_grows(bytes@, i + 1, bytes.len() as int);
        }
        let family = match route_file(specs[i].kind, &file) {
            Some(f) => f,
            None => {
                return Err(MergeError::KindMismatch { path: specs[i].path.clone() });
            },
        };
        let ghost before = plans@;
        match merge_family(family, base, &file, &table, &mut report) {
            Ok(modules) => {
                plans.push(FilePlan { file, family, modules });
                proof {
                    lemma_run_totals_prefix(b, table@, before, plans@, i as int);
                    assert forall|k: int| 0 <= k < plans@.len() implies is_adapter_of(
                        &(#[trigger] plans@[k]).file,
                        bytes@[k]@,
                    ) && is_file_plan(&plans@[k], b, table@, specs@[k].kind) by {
                        if k < i {
                            assert(plans@[k] == before[k]);
                        }
                    }
                }
            },
            Err(fault) => {
                return Err(MergeError::Faulty { fault });
            },
        }
        i += 1;
    }
    if specs.len() > 0 && report.merged == 0 {
        proof {
            assert(planned(b, table@, specs@, bytes@, plans@));
        }
        return Err(MergeError::NothingMatched { files: specs.len() });
    }
    Ok((plans, report))
}

impl MergeError {
    pub open spec fn text(&self) -> Seq<char> {
        match *self {
            MergeError::Unreadable { path, reason } => "read adapter metadata "@ + path@ + ": "@
                + reason@,
            MergeError::KindMismatch { path } => "sdxl: adapter "@ + path@
                + " declared Lora but its metadata says networkType=lokr"@,
            MergeError::Faulty { fault: Fault::MissingLeg } =>
                "loha: a hada_w1/w2 a/b factor is missing"@,
            MergeError::Faulty { fault: Fault::Shapes } => "sdxl: adapter factors do not multiply"@,
            MergeError::NothingMatched { files } =>
                "sdxl: no adapter target modules matched across "@ + decimal(files as nat)
                + " file(s) — expected PEFT `base_model.model.unet.<path>.lora_A/B.weight` or kohya `lora_unet_<flat>.lora_down/up.weight` with diffusers `down_blocks_*` or original-SD `input_blocks_*` block naming (LoRA, incl. conv layers), `<module>.lokr_w1/w2` with networkType=lokr (LoKr), or untagged LyCORIS `lokr_*` / `hada_*` (third-party LoKr / LoHa)"@,
        }
    }

    /// The error in words.
    pub fn message(&self) -> (r: String)
        ensures
            r@ == self.text(),
    {
        match self {
            MergeError::Unreadable { path, reason } => {
                let mut s = join("read adapter metadata ", path.as_str());
                s.append(": ");
                s.append(reason.as_str());
                s
            },
            MergeError::KindMismatch { path } => {
                let mut s = join("sdxl: adapter ", path.as_str());
                s.append(" declared Lora but its metadata says networkType=lokr");
                s
            },
            MergeError::Faulty { fault } => match fault {
                Fault::MissingLeg => String::from_str("loha: a hada_w1/w2 a/b factor is missing"),
                Fault::Shapes => String::from_str("sdxl: adapter factors do not multiply"),
            },
            MergeError::NothingMatched { files } => {
                let mut s = String::from_str("sdxl: no adapter target modules matched across ");
                s.append(decimal_of(*files).as_str());
                s.append(
                    " file(s) — expected PEFT `base_model.model.unet.<path>.lora_A/B.weight` or kohya `lora_unet_<flat>.lora_down/up.weight` with diffusers `down_blocks_*` or original-SD `input_blocks_*` block naming (LoRA, incl. conv layers), `<module>.lokr_w1/w2` with networkType=lokr (LoKr), or untagged LyCORIS `lokr_*` / `hada_*` (third-party LoKr / LoHa)",
                );
                s
            },
        }
    }
}

/// Only a LoRA pair of 4-D factors touches a convolution: whatever any other format merges into is a
/// matrix, and its shape is unchanged.
pub proof fn law_convolutions_are_lora_only(
    family: Family,
    base: Seq<(Seq<char>, Seq<usize>)>,
    tensors: Seq<(Seq<char>, Seq<usize>)>,
    table: Map<Seq<char>, Seq<char>>,
    stem: Seq<char>,
)
    ensures
        outcome(family, base, tensors, table, stem) matches Outcome::Merge {
            base: b,
            conv,
            ..
        } ==> base[b].1.len() == if conv {
            4int
        } else {
            2int
        } && (conv ==> family == Family::Lora),
{
}

/// Nothing is dropped in silence by a LoRA or tagged LoKr merge that succeeds: its keys that are no
/// factor are all counted, and each of its modules is either merged or counted as skipped.
pub proof fn law_every_key_is_surfaced(
    family: Family,
    base: Seq<(Seq<char>, Seq<usize>)>,
    tensors: Seq<(Seq<char>, Seq<usize>)>,
    table: Map<Seq<char>, Seq<char>>,
    i: int,
)
    requires
        family == Family::Lora || family == Family::Lokr,
        0 <= i < tensors.len(),
        mark_of(family, table, tensors[i]) is Some,
    ensures
        ({
            let m = file_marks(family, table, tensors);
            stem_list(m, tensors.len() as int).contains((m[i]->0).0)
        }),
        strays(family, tensors, table) == unmarked(
            file_marks(family, table, tensors),
            tensors.len() as int,
        ),
{
    let m = file_marks(family, table, tensors);
    law_stem_list(m, tensors.len() as int);
    assert(crate::grouping::belongs(m[i], (m[i]->0).0));
}

/// What a suffix leaves.
proof fn lemma_suffixed(s: Seq<char>, suffix: Seq<char>)
    ensures
        without_suffix(s + suffix, suffix) == Some(s),
{
    let t = s + suffix;
    assert(t.skip(t.len() - suffix.len()) =~= suffix);
    assert(t.take(t.len() - suffix.len()) =~= s);
}

/// What a prefix leaves.
proof fn lemma_prefixed(prefix: Seq<char>, s: Seq<char>)
    ensures
        without_prefix(prefix + s, prefix) == Some(s),
{
    let t = prefix + s;
    assert(t.take(prefix.len() as int) =~= prefix);
    assert(t.skip(prefix.len() as int) =~= s);
}

/// Two suffixes that differ at a place, counted from the end, do not both fit.
proof fn lemma_other_suffix(s: Seq<char>, suffix: Seq<char>, other: Seq<char>, back: int)
    requires
        0 < back <= suffix.len(),
        back <= other.len(),
        suffix[suffix.len() - back] != other[other.len() - back],
    ensures
        without_suffix(s + suffix, other) is None,
{
    let t = s + suffix;
    if ends(t, other) {
        let tail = t.skip(t.len() - other.len());
        assert(tail[other.len() - back] == t[t.len() - back]);
        assert(t[t.len() - back] == suffix[suffix.len() - back]);
    }
}

/// What the trainer writes is what the merge reads: the keys of an adapter trained on `path` resolve
/// to that path, each in its own role.
pub proof fn law_trained_keys_read_back(path: Seq<char>, table: Map<Seq<char>, Seq<char>>)
    ensures
        ({
            let key = "base_model.model.unet."@ + path;
            &&& lora_class(key + ".lora_A.weight"@, table) == Some((path, Role::Down))
            &&& lora_class(key + ".lora_B.weight"@, table) == Some((path, Role::Up))
            &&& lora_class(key + ".alpha"@, table) == Some((path, Role::Alpha))
        }),
{
    reveal_strlit("base_model.model.unet.");
    reveal_strlit("lora_unet_");
    reveal_strlit(".lora_A.weight");
    reveal_strlit(".lora_B.weight");
    reveal_strlit(".lora_A.default.weight");
    reveal_strlit(".lora_B.default.weight");
    reveal_strlit(".alpha");
    let p = "base_model.model.unet."@;
    let (a, b, alpha) = (".lora_A.weight"@, ".lora_B.weight"@, ".alpha"@);
    let (da, db) = (".lora_A.default.weight"@, ".lora_B.default.weight"@);
    lemma_trained_key(path, a);
    lemma_trained_key(path, b);
    lemma_trained_key(path, alpha);
    // The suffixes part at the letter before ".weight", or at the last one.
    lemma_other_suffix(path, a, da, 8);
    lemma_other_suffix(path, a, db, 8);
    lemma_suffixed(path, a);
    lemma_other_suffix(path, b, da, 8);
    lemma_other_suffix(path, b, db, 8);
    lemma_other_suffix(path, b, a, 8);
    lemma_suffixed(path, b);
    lemma_other_suffix(path, alpha, da, 1);
    lemma_other_suffix(path, alpha, db, 1);
    lemma_other_suffix(path, alpha, a, 1);
    lemma_other_suffix(path, alpha, b, 1);
    lemma_suffixed(path, alpha);
}

/// A trained key is not a flattened one, and loses its prefix.
proof fn lemma_trained_key(path: Seq<char>, suffix: Seq<char>)
    ensures
        ({
            let key = "base_model.model.unet."@ + path + suffix;
            without_prefix(key, "lora_unet_"@) is None && !starts(key, "lora_te"@) && unprefixed(key)
                == path + suffix
        }),
{
    reveal_strlit("base_model.model.unet.");
    reveal_strlit("lora_unet_");
    reveal_strlit("lora_te");
    let p = "base_model.model.unet."@;
    let key = p + path + suffix;
    assert(key =~= p + (path + suffix));
    lemma_prefixed(p, path + suffix);
    if starts(key, "lora_unet_"@) {
        assert(key.take("lora_unet_"@.len() as int)[0] == key[0]);
    }
    if starts(key, "lora_te"@) {
        assert(key.take("lora_te"@.len() as int)[0] == key[0]);
    }
}

/// A text encoder's keys are outside the surface, whatever the table holds.
pub proof fn law_text_encoder_keys_are_refused(name: Seq<char>, table: Map<Seq<char>, Seq<char>>)
    ensures
        lora_class("lora_te"@ + name, table) is None,
        lokr_class("lora_te"@ + name, table) is None,
{
    reveal_strlit("lora_unet_");
    reveal_strlit("lora_te");
    reveal_strlit(".lokr_w1_a");
    reveal_strlit(".lokr_w1_b");
    reveal_strlit(".lokr_w1");
    reveal_strlit(".lokr_w2_a");
    reveal_strlit(".lokr_w2_b");
    reveal_strlit(".lokr_w2");
    let key = "lora_te"@ + name;
    assert(key.take("lora_te"@.len() as int) =~= "lora_te"@);
    lemma_not_flattened(key);
    if let Some((stem, _)) = lokr_slot(key) {
        let n = stem.len() as int;
        lemma_dot(key, ".lokr_w1_a"@);
        lemma_dot(key, ".lokr_w1_b"@);
        lemma_dot(key, ".lokr_w1"@);
        lemma_dot(key, ".lokr_w2_a"@);
        lemma_dot(key, ".lokr_w2_b"@);
        lemma_dot(key, ".lokr_w2"@);
        assert(key[n] == '.');
        assert(n >= "lora_te"@.len()) by {
            if n < "lora_te"@.len() {
                assert(key[n] == "lora_te"@[n]);
            }
        }
        assert(stem.take("lora_te"@.len() as int) =~= "lora_te"@);
        lemma_not_flattened(stem);
    }
}

/// A suffix that starts with a dot has it right behind what it leaves.
proof fn lemma_dot(key: Seq<char>, suffix: Seq<char>)
    requires
        suffix.len() > 0,
        suffix[0] == '.',
    ensures
        without_suffix(key, suffix) matches Some(s) ==> key[s.len() as int] == '.' && s
            == key.take(s.len() as int) && s.len() < key.len(),
{
    if ends(key, suffix) {
        assert(key.skip(key.len() - suffix.len())[0] == suffix[0]);
    }
}

proof fn lemma_not_flattened(key: Seq<char>)
    requires
        starts(key, "lora_te"@),
    ensures
        without_prefix(key, "lora_unet_"@) is None,
{
    reveal_strlit("lora_unet_");
    reveal_strlit("lora_te");
    assert(key.take("lora_te"@.len() as int)[5] == key[5]);
    if starts(key, "lora_unet_"@) {
        assert(key.take("lora_unet_"@.len() as int)[5] == key[5]);
    }
}

/// A flattened key resolves to the path that the table gives its stem, each factor in its own role.
pub proof fn law_flattened_keys_read_back(
    stem: Seq<char>,
    path: Seq<char>,
    table: Map<Seq<char>, Seq<char>>,
)
    requires
        table_path(table, stem) == Some(path),
    ensures
        ({
            let key = "lora_unet_"@ + stem;
            &&& lora_class(key + ".lora_down.weight"@, table) == Some((path, Role::Down))
            &&& lora_class(key + ".lora_up.weight"@, table) == Some((path, Role::Up))
            &&& lora_class(key + ".alpha"@, table) == Some((path, Role::Alpha))
        }),
{
    reveal_strlit("lora_unet_");
    reveal_strlit(".lora_down.weight");
    reveal_strlit(".lora_up.weight");
    reveal_strlit(".alpha");
    let p = "lora_unet_"@;
    let (down, up, alpha) = (".lora_down.weight"@, ".lora_up.weight"@, ".alpha"@);
    assert(p + stem + down =~= p + (stem + down));
    assert(p + stem + up =~= p + (stem + up));
    assert(p + stem + alpha =~= p + (stem + alpha));
    lemma_prefixed(p, stem + down);
    lemma_prefixed(p, stem + up);
    lemma_prefixed(p, stem + alpha);
    lemma_suffixed(stem, down);
    lemma_other_suffix(stem, up, down, 8);
    lemma_suffixed(stem, up);
    lemma_other_suffix(stem, alpha, down, 1);
    lemma_other_suffix(stem, alpha, up, 1);
    lemma_suffixed(stem, alpha);
}

/// The tensor of a key is the only one that bears its mark.
proof fn lemma_slot_of_key(
    m: Seq<Option<(Seq<char>, int)>>,
    tensors: Seq<(Seq<char>, Seq<usize>)>,
    stem: Seq<char>,
    slot: int,
    key: Seq<char>,
    i: int,
)
    requires
        m.len() == tensors.len(),
        distinct(tensors),
        0 <= i < m.len(),
        tensors[i].0 == key,
        m[i] == Some((stem, slot)),
        forall|j: int|
            0 <= j < m.len() && #[trigger] m[j] == Some((stem, slot)) ==> tensors[j].0 == key,
    ensures
        slot_of(m, stem, slot, m.len() as int) == Some(i),
{
    law_slot_is_the_last_of_its_mark(m, stem, slot, m.len() as int);
    let j = slot_of(m, stem, slot, m.len() as int)->0;
    if j != i {
        assert(tensors[j].0 == tensors[i].0);
    }
}

/// The mark of an untagged LoKr factor is that of its key.
proof fn lemma_lokr_mark(
    table: Map<Seq<char>, Seq<char>>,
    t: (Seq<char>, Seq<usize>),
    stem: Seq<char>,
    slot: usize,
)
    requires
        slot < 6,
    ensures
        t.0 == stem + ("."@ + lokr_name(slot)) <==> mark_of(Family::ThirdPartyLokr, table, t) == Some(
            (stem, slot as int),
        ),
{
    reveal_strlit(".alpha");
    reveal_strlit(".");
    reveal_strlit("lokr_w1_a");
    reveal_strlit("lokr_w1_b");
    reveal_strlit("lokr_w1");
    reveal_strlit("lokr_w2_a");
    reveal_strlit("lokr_w2_b");
    reveal_strlit("lokr_w2");
    law_lokr_keys_read_back(stem);
    law_lokr_keys_are_spelled_out(t.0);
    let name = "."@ + lokr_name(slot);
    assert(name[name.len() - 2] != 'h') by {
        assert(name[name.len() - 2] == lokr_name(slot)[lokr_name(slot).len() - 2]);
    }
    lemma_other_suffix(stem, name, ".alpha"@, 2);
}

/// The rank of an untagged LoKr module is the inner dimension of its low-rank product: the second axis
/// of the first side's left factor, which is the first axis of the right factor that it multiplies.
/// Where the first side is full it is that of the second side, and where both are the module has none.
pub proof fn law_lokr_rank_is_the_inner_dimension(
    base: Seq<(Seq<char>, Seq<usize>)>,
    tensors: Seq<(Seq<char>, Seq<usize>)>,
    table: Map<Seq<char>, Seq<char>>,
    stem: Seq<char>,
    a: int,
    b: int,
)
    requires
        distinct(tensors),
        0 <= a < tensors.len(),
        0 <= b < tensors.len(),
        outcome(Family::ThirdPartyLokr, base, tensors, table, stem) is Merge,
    ensures
        ({
            let first = exists|i: int|
                0 <= i < tensors.len() && (#[trigger] tensors[i]).0 == stem + ".lokr_w1_a"@;
            let second = exists|i: int|
                0 <= i < tensors.len() && (#[trigger] tensors[i]).0 == stem + ".lokr_w2_a"@;
            let (left, right) = (tensors[a].1, tensors[b].1);
            let one = tensors[a].0 == stem + ".lokr_w1_a"@ && tensors[b].0 == stem + ".lokr_w1_b"@;
            let two = !first && tensors[a].0 == stem + ".lokr_w2_a"@ && tensors[b].0 == stem
                + ".lokr_w2_b"@;
            outcome(Family::ThirdPartyLokr, base, tensors, table, stem) matches Outcome::Merge {
                rank,
                ..
            } && {
                &&& one || two ==> left.len() >= 2 && rank == Some(left[1])
                &&& (one || two) && right.len() == 2 && left.len() == 2 && multiplies(left, right)
                    ==> rank == Some(right[0])
                &&& tensors[a].0 == stem + ".lokr_w1_a"@ ==> rank == Some(left[1])
                &&& !first && !second ==> rank is None
            }
        }),
{
    reveal_strlit(".");
    reveal_strlit("lokr_w1_a");
    reveal_strlit("lokr_w2_a");
    reveal_strlit(".lokr_w1_a");
    reveal_strlit(".lokr_w2_a");
    let (k1, k2) = (stem + ".lokr_w1_a"@, stem + ".lokr_w2_a"@);
    assert("."@ + lokr_name(0) =~= ".lokr_w1_a"@);
    assert("."@ + lokr_name(3) =~= ".lokr_w2_a"@);
    let m = file_marks(Family::ThirdPartyLokr, table, tensors);
    let n = tensors.len() as int;
    assert(m.len() == n);
    assert forall|j: int| 0 <= j < n implies ((#[trigger] m[j] == Some((stem, 0int))) <==> tensors[j].0
        == k1) by {
        lemma_lokr_mark(table, tensors[j], stem, 0);
    }
    assert forall|j: int| 0 <= j < n implies ((#[trigger] m[j] == Some((stem, 3int))) <==> tensors[j].0
        == k2) by {
        lemma_lokr_mark(table, tensors[j], stem, 3);
    }
    law_slot_is_the_last_of_its_mark(m, stem, 0, n);
    law_slot_is_the_last_of_its_mark(m, stem, 3, n);
    assert(m[a] == m[a] && m[b] == m[b]);
    if tensors[a].0 == k1 {
        lemma_slot_of_key(m, tensors, stem, 0, k1, a);
    } else if tensors[a].0 == k2 {
        lemma_slot_of_key(m, tensors, stem, 3, k2, a);
    }
    if let Some(i) = slot_of(m, stem, 0, n) {
        assert(tensors[i].0 == k1);
    }
    if let Some(i) = slot_of(m, stem, 3, n) {
        assert(tensors[i].0 == k2);
    }
}

/// Two matrices multiply: the first is as wide as the second is high.
pub open spec fn multiplies(left: Seq<usize>, right: Seq<usize>) -> bool {
    left.len() == 2 && right.len() == 2 && left[1] == right[0]
}

/// The factors of a LoHa module are told by their keys.
pub proof fn law_loha_keys_read_back(stem: Seq<char>)
    ensures
        tp_loha_slot(stem + ".hada_w1_a"@) == Some((stem, 0usize)),
        tp_loha_slot(stem + ".hada_w1_b"@) == Some((stem, 1usize)),
        tp_loha_slot(stem + ".hada_w2_a"@) == Some((stem, 2usize)),
        tp_loha_slot(stem + ".hada_w2_b"@) == Some((stem, 3usize)),
{
    reveal_strlit(".hada_w1_a");
    reveal_strlit(".hada_w1_b");
    reveal_strlit(".hada_w2_a");
    reveal_strlit(".hada_w2_b");
    let (a1, b1, a2, b2) = (".hada_w1_a"@, ".hada_w1_b"@, ".hada_w2_a"@, ".hada_w2_b"@);
    lemma_suffixed(stem, a1);
    lemma_suffixed(stem, b1);
    lemma_suffixed(stem, a2);
    lemma_suffixed(stem, b2);
    lemma_other_suffix(stem, b1, a1, 1);
    lemma_other_suffix(stem, a2, a1, 3);
    lemma_other_suffix(stem, a2, b1, 1);
    lemma_other_suffix(stem, b2, a1, 1);
    lemma_other_suffix(stem, b2, b1, 3);
    lemma_other_suffix(stem, b2, a2, 1);
}

/// The rank of a LoHa module is the inner dimension of its first product: the first axis of the right
/// factor, which is the second axis of the left one that multiplies it. A module is merged only with
/// all four of its factors.
pub proof fn law_loha_rank_is_the_inner_dimension(
    base: Seq<(Seq<char>, Seq<usize>)>,
    tensors: Seq<(Seq<char>, Seq<usize>)>,
    table: Map<Seq<char>, Seq<char>>,
    stem: Seq<char>,
    a: int,
    b: int,
)
    requires
        distinct(tensors),
        0 <= a < tensors.len(),
        0 <= b < tensors.len(),
        tensors[a].0 == stem + ".hada_w1_a"@,
        tensors[b].0 == stem + ".hada_w1_b"@,
        outcome(Family::ThirdPartyLoha, base, tensors, table, stem) is Merge,
    ensures
        outcome(Family::ThirdPartyLoha, base, tensors, table, stem) matches Outcome::Merge {
            rank,
            ..
        } && rank == Some(tensors[b].1[0]) && (multiplies(tensors[a].1, tensors[b].1) ==> rank == Some(
            tensors[a].1[1],
        )),
{
    reveal_strlit(".hada_w1_a");
    reveal_strlit(".hada_w1_b");
    reveal_strlit(".alpha");
    let m = file_marks(Family::ThirdPartyLoha, table, tensors);
    let n = tensors.len() as int;
    let key = stem + ".hada_w1_b"@;
    law_loha_keys_read_back(stem);
    lemma_other_suffix(stem, ".hada_w1_b"@, ".alpha"@, 1);
    assert(m[b] == Some((stem, 1int)));
    assert forall|j: int| 0 <= j < n && #[trigger] m[j] == Some((stem, 1int)) implies tensors[j].0
        == key by {
        lemma_suffix_put_back(tensors[j].0, ".hada_w1_b"@);
        lemma_suffix_put_back(tensors[j].0, ".hada_w1_a"@);
    }
    lemma_slot_of_key(m, tensors, stem, 1, key, b);
}

/// A LoRA pair is merged exactly where its product has the shape of the module's weight: the up factor
/// gives the rows, the down factor the columns and the rest of a convolution's kernel, and they meet in
/// the rank.
pub proof fn law_lora_merges_its_product(
    base: Seq<(Seq<char>, Seq<usize>)>,
    stem: Seq<char>,
    down: Seq<usize>,
    up: Seq<usize>,
)
    ensures
        lora_outcome(base, stem, down, up) matches Outcome::Merge { base: p, stem: s, rank, conv } ==> {
            let w = base[p].1;
            &&& 0 <= p < base.len() && base[p].0 == stem + ".weight"@ && s == stem
            &&& rank == Some(down[0]) && rank == Some(up[1])
            &&& w.len() == down.len() && w.len() == up.len() && (w.len() == 2 || w.len() == 4)
            &&& w[0] == up[0] && w[1] == down[1]
            &&& conv <==> w.len() == 4
            &&& conv ==> w[2] == down[2] && w[3] == down[3] && up[2] == 1 && up[3] == 1
        },
        forall|p: int|
            #[trigger] is_first(base, stem + ".weight"@, p) && base[p].1 == seq![up[0], down[1]]
                && multiplies(up, down) ==> (lora_outcome(base, stem, down, up) matches Outcome::Merge {
                base: q,
                conv,
                ..
            } && q == p && !conv),
{
    let key = stem + ".weight"@;
    assert forall|p: int| is_first(base, key, p) implies position(base, key) == Some(p) by {
        lemma_position(base, key, p);
    }
    if let Some(p) = position(base, key) {
        assert(is_first(base, key, p));
    }
}

/// A module of a file is merged into the weight that its path names: a LoRA and a tagged LoKr into that
/// of the module's own path, a third-party module into that of the path behind its flattened name.
pub proof fn law_modules_go_to_their_weight(
    family: Family,
    base: Seq<(Seq<char>, Seq<usize>)>,
    tensors: Seq<(Seq<char>, Seq<usize>)>,
    table: Map<Seq<char>, Seq<char>>,
    stem: Seq<char>,
)
    ensures
        outcome(family, base, tensors, table, stem) matches Outcome::Merge { base: p, stem: s, .. } ==> {
            &&& s == stem && 0 <= p < base.len()
            &&& family == Family::Lora || family == Family::Lokr ==> base[p].0 == stem + ".weight"@
            &&& family == Family::ThirdPartyLokr || family == Family::ThirdPartyLoha ==> {
                third_party_path(stem, table) matches Some(path) && base[p].0 == path + ".weight"@
            }
        },
{
    let key = stem + ".weight"@;
    if let Some(p) = position(base, key) {
        assert(is_first(base, key, p));
    }
    if let Some(path) = third_party_path(stem, table) {
        if let Some(p) = position(base, path + ".weight"@) {
            assert(is_first(base, path + ".weight"@, p));
        }
    }
}

/// A third-party module is known by its flattened name, bare or behind the prefix of the trainer that
/// wrote it.
pub proof fn law_third_party_names_resolve(
    flat: Seq<char>,
    path: Seq<char>,
    table: Map<Seq<char>, Seq<char>>,
)
    requires
        table_path(table, flat) == Some(path),
    ensures
        third_party_path("lora_unet_"@ + flat, table) == Some(path),
        third_party_path("lycoris_"@ + flat, table) == Some(path),
        !starts(flat, "lora_unet_"@) && !starts(flat, "lycoris_"@) ==> third_party_path(flat, table)
            == Some(path),
{
    reveal_strlit("lora_unet_");
    reveal_strlit("lycoris_");
    lemma_prefixed("lora_unet_"@, flat);
    lemma_prefixed("lycoris_"@, flat);
    let key = "lycoris_"@ + flat;
    if starts(key, "lora_unet_"@) {
        assert(key.take("lora_unet_"@.len() as int)[1] == key[1]);
    }
}

/// The format of a file: untagged LoKr or Hadamard keys speak for themselves; what has neither is what
/// it was declared as, but for a LoRA whose own metadata says that it is a LoKr.
pub proof fn law_files_are_routed_by_what_they_hold(kind: AdapterKind, af: &AdapterFile)
    ensures
        ({
            let lokr = some_key_has(af.entries(), ".lokr_"@);
            let hada = some_key_has(af.entries(), ".hada_"@);
            let tagged = af.meta_value("networkType"@) == Some("lokr"@);
            &&& lokr && !tagged <==> route(kind, af) == Some(Family::ThirdPartyLokr)
            &&& hada && !(lokr && !tagged) <==> route(kind, af) == Some(Family::ThirdPartyLoha)
            &&& !hada && !lokr && !tagged && kind == AdapterKind::Lora <==> route(kind, af) == Some(
                Family::Lora,
            )
            &&& !hada && tagged && kind == AdapterKind::Lora <==> route(kind, af) is None
            &&& !hada && (tagged || !lokr) && kind == AdapterKind::Lokr <==> route(kind, af) == Some(
                Family::Lokr,
            )
        }),
{
}

/// What is merged of a file is every outcome that merges, and in the order of the modules.
pub proof fn law_every_merge_is_planned(o: Seq<Outcome>, k: int)
    requires
        0 <= k <= o.len(),
    ensures
        merges(o, k) == o.take(k).filter(|x: Outcome| x is Merge),
    decreases k,
{
    reveal(Seq::filter);
    if k > 0 {
        law_every_merge_is_planned(o, k - 1);
        assert(o.take(k).drop_last() =~= o.take(k - 1));
        assert(o.take(k).last() == o[k - 1]);
    } else {
        assert(o.take(0) =~= Seq::empty());
    }
}

/// A file fails where one of its modules does, for the reason of the first that does.
pub proof fn law_first_fault_is_reported(o: Seq<Outcome>, k: int)
    requires
        0 <= k <= o.len(),
    ensures
        fault_from(o, k) is None <==> forall|i: int| k <= i < o.len() ==> !((#[trigger] o[i]) is Failed),
        fault_from(o, k) matches Some(f) ==> exists|i: int|
            {
                &&& k <= i < o.len()
                &&& #[trigger] o[i] == Outcome::Failed(f)
                &&& forall|j: int| k <= j < i ==> !((#[trigger] o[j]) is Failed)
            },
    decreases o.len() - k,
{
    if k < o.len() {
        law_first_fault_is_reported(o, k + 1);
        assert(o[k] == o[k]);
        if !(o[k] is Failed) {
            if let Some(f) = fault_from(o, k) {
                let i = choose|i: int|
                    {
                        &&& k + 1 <= i < o.len()
                        &&& #[trigger] o[i] == Outcome::Failed(f)
                        &&& forall|j: int| k + 1 <= j < i ==> !((#[trigger] o[j]) is Failed)
                    };
                assert(o[i] == Outcome::Failed(f));
            }
        }
    }
}

/// A module to merge is that of its outcome, with the factors that its own tensors are: each slot holds
/// a tensor that is marked as the module's and as of that slot, or none is.
pub proof fn law_modules_carry_their_factors(
    md: Module,
    o: Outcome,
    m: Seq<Option<(Seq<char>, int)>>,
    s: int,
)
    requires
        md.is(o, m),
        0 <= s < SLOTS,
    ensures
        o == (Outcome::Merge {
            base: md.base as int,
            stem: md.stem@,
            rank: md.rank,
            conv: md.conv,
        }),
        md.factors.len() == SLOTS,
        match md.factors[s] {
            Some(i) => i < m.len() && m[i as int] == Some((md.stem@, s)),
            None => forall|i: int| 0 <= i < m.len() ==> #[trigger] m[i] != Some((md.stem@, s)),
        },
{
    crate::grouping::law_slot_is_the_last_of_its_mark(m, md.stem@, s, m.len() as int);
}

/// A plan is that of its file: the file goes by that format, none of its modules fails, and it has a
/// module for each that merges; whatever else the file holds is surfaced as skipped.
pub proof fn law_plans_are_of_their_files(
    p: &FilePlan,
    base: Seq<(Seq<char>, Seq<usize>)>,
    table: Map<Seq<char>, Seq<char>>,
    kind: AdapterKind,
    i: int,
)
    requires
        is_file_plan(p, base, table, kind),
    ensures
        ({
            let e = p.file.entries();
            let o = outcomes(p.family, base, e, table);
            &&& route(kind, &p.file) == Some(p.family)
            &&& 0 <= i < o.len() ==> !(o[i] is Failed)
            &&& p.modules.len() == o.filter(|x: Outcome| x is Merge).len()
            &&& 0 <= i < p.modules.len() ==> p.modules[i].is(
                o.filter(|x: Outcome| x is Merge)[i],
                file_marks(p.family, table, e),
            )
            &&& skips_of(p, base, table) + p.modules.len() == o.len() + strays(p.family, e, table)
        }),
{
    let o = outcomes(p.family, base, p.file.entries(), table);
    law_every_merge_is_planned(o, o.len() as int);
    law_first_fault_is_reported(o, 0);
    assert(o.take(o.len() as int) =~= o);
}

/// The rank of a third-party module is read off its factors, which need the axes for that: a low-rank
/// LoKr factor a second one; a LoHa, which needs all its four legs, a first one.
pub proof fn law_ranks_need_their_axes(
    tensors: Seq<(Seq<char>, Seq<usize>)>,
    a: Option<int>,
    b: Option<int>,
    c: Option<int>,
    d: Option<int>,
)
    ensures
        a matches Some(i) ==> (lokr_rank(tensors, a, b) is Ok <==> tensors[i].1.len() > 1),
        a is None && b is Some ==> (lokr_rank(tensors, a, b) is Ok <==> tensors[b->0].1.len() > 1),
        a is None && b is None ==> lokr_rank(tensors, a, b) == Ok::<Option<usize>, Fault>(None),
        lokr_rank(tensors, a, b) matches Err(f) ==> f == Fault::Shapes,
        loha_rank(tensors, a, b, c, d) == Err::<Option<usize>, Fault>(Fault::MissingLeg) <==> !(a is Some
            && b is Some && c is Some && d is Some),
        a is Some && b is Some && c is Some && d is Some ==> (loha_rank(tensors, a, b, c, d) is Ok
            <==> tensors[b->0].1.len() > 0),
        loha_rank(tensors, a, b, c, d) matches Ok(r) ==> r == Some(tensors[b->0].1[0]),
{
}

/// Every file of a run has its plan: that of its own bytes and its own declaration. The totals are those
/// of the plans, file by file.
pub proof fn law_runs_plan_every_file(
    base: Seq<(Seq<char>, Seq<usize>)>,
    table: Map<Seq<char>, Seq<char>>,
    specs: Seq<AdapterSpec>,
    bytes: Seq<Vec<u8>>,
    plans: Seq<FilePlan>,
    i: int,
)
    requires
        planned(base, table, specs, bytes, plans),
        0 <= i < plans.len(),
    ensures
        is_adapter_of(&plans[i].file, bytes[i]@),
        is_file_plan(&plans[i], base, table, specs[i].kind),
        run_totals(base, table, plans, 0) == (0int, 0int),
        run_totals(base, table, plans, i + 1).0 - run_totals(base, table, plans, i).0
            == plans[i].modules.len(),
        run_totals(base, table, plans, i + 1).1 - run_totals(base, table, plans, i).1 == skips_of(
            &plans[i],
            base,
            table,
        ),
{
}

/// A file has a key of a kind where one of its keys is of it.
pub proof fn law_keys_are_searched_for_their_part(
    tensors: Seq<(Seq<char>, Seq<usize>)>,
    t: (Seq<char>, Seq<usize>),
    part: Seq<char>,
)
    ensures
        some_key_has(tensors.push(t), part) <==> some_key_has(tensors, part) || has_part(t.0, part),
        !some_key_has(Seq::empty(), part),
{
    let all = tensors.push(t);
    if some_key_has(tensors, part) {
        let i = choose|i: int| 0 <= i < tensors.len() && has_part((#[trigger] tensors[i]).0, part);
        assert(all[i] == tensors[i]);
    }
    assert(all[tensors.len() as int] == t);
    if some_key_has(all, part) && !has_part(t.0, part) {
        let i = choose|i: int| 0 <= i < all.len() && has_part((#[trigger] all[i]).0, part);
        assert(all[i] == tensors[i]);
    }
}

/// Stray keys are surfaced for the trainer's own formats, each once, and for no other.
pub proof fn law_own_formats_surface_their_strays(
    family: Family,
    tensors: Seq<(Seq<char>, Seq<usize>)>,
    table: Map<Seq<char>, Seq<char>>,
)
    ensures
        family == Family::ThirdPartyLokr || family == Family::ThirdPartyLoha ==> strays(
            family,
            tensors,
            table,
        ) == 0,
        family == Family::Lora || family == Family::Lokr ==> strays(family, tensors, table)
            == unmarked(file_marks(family, table, tensors), tensors.len() as int),
{
}

/// A tensor has an element unless one of its axes is empty.
pub proof fn law_empty_axes_leave_no_element(dims: Seq<usize>, n: usize)
    ensures
        has_elements(dims.push(n)) <==> has_elements(dims) && n > 0,
        has_elements(Seq::empty()),
{
    let all = dims.push(n);
    assert(all[dims.len() as int] == n);
    if has_elements(all) {
        assert forall|i: int| 0 <= i < dims.len() implies #[trigger] dims[i] != 0 by {
            assert(all[i] != 0);
        }
    }
}

} // verus!
