//! Adapter files and base checkpoints as the merge sees them: named tensors with their shapes, file
//! metadata, and the table that resolves flattened module names.
use crate::json::{
    items_at, items_of, json_members, member_items, members_in, members_of, read_items, read_members,
};
use crate::text::{
    ends, flatten, flattened, parse_up_to, parsed, same, strip_suffix, views, without_suffix,
};
use safetensors::SafeTensors;
use vstd::prelude::*;
use vstd::slice::slice_subrange;
use vstd::string::*;

verus! {

/// A tensor of a checkpoint: its key and its shape.
#[derive(Clone, Debug)]
pub struct TensorEntry {
    pub name: String,
    pub dims: Vec<usize>,
}

/// The key and shape of each tensor.
pub open spec fn entries(v: Seq<TensorEntry>) -> Seq<(Seq<char>, Seq<usize>)> {
    v.map_values(|e: TensorEntry| (e.name@, e.dims@))
}

/// The characters of each metadata key and value.
pub open spec fn pairs(v: Seq<(String, String)>) -> Seq<(Seq<char>, Seq<char>)> {
    v.map_values(|p: (String, String)| (p.0@, p.1@))
}

/// No key occurs twice.
pub open spec fn distinct<V>(e: Seq<(Seq<char>, V)>) -> bool {
    forall|i: int, j: int| 0 <= i < j < e.len() ==> (#[trigger] e[i]).0 != (#[trigger] e[j]).0
}

/// Entry `i` is the first of key `name`.
pub open spec fn is_first<V>(e: Seq<(Seq<char>, V)>, name: Seq<char>, i: int) -> bool {
    &&& 0 <= i < e.len()
    &&& e[i].0 == name
    &&& forall|j: int| 0 <= j < i ==> (#[trigger] e[j]).0 != name
}

/// The position of the first entry of key `name`.
pub open spec fn position<V>(e: Seq<(Seq<char>, V)>, name: Seq<char>) -> Option<int> {
    if exists|i: int| is_first(e, name, i) {
        Some(choose|i: int| is_first(e, name, i))
    } else {
        None
    }
}

/// The value of the first entry of key `name`.
pub open spec fn lookup<V>(e: Seq<(Seq<char>, V)>, name: Seq<char>) -> Option<V> {
    match position(e, name) {
        Some(i) => Some(e[i].1),
        None => None,
    }
}

/// The map that the entries spell out.
pub open spec fn as_map<V>(e: Seq<(Seq<char>, V)>) -> Map<Seq<char>, V> {
    Map::new(|k: Seq<char>| lookup(e, k) is Some, |k: Seq<char>| lookup(e, k)->0)
}

pub proof fn lemma_position<V>(e: Seq<(Seq<char>, V)>, name: Seq<char>, i: int)
    requires
        is_first(e, name, i),
    ensures
        position(e, name) == Some(i),
{
    let k = choose|k: int| is_first(e, name, k);
    if k < i {
        assert(e[k].0 != name);
    }
    if i < k {
        assert(e[i].0 != name);
    }
}

pub proof fn lemma_no_position<V>(e: Seq<(Seq<char>, V)>, name: Seq<char>)
    requires
        forall|j: int| 0 <= j < e.len() ==> (#[trigger] e[j]).0 != name,
    ensures
        position(e, name) is None,
{
}

/// The position of the tensor `name`.
pub fn find_tensor(v: &Vec<TensorEntry>, name: &str) -> (r: Option<usize>)
    ensures
        match r {
            Some(i) => i < v.len() && position(entries(v@), name@) == Some(i as int),
            None => position(entries(v@), name@) is None,
        },
{
    let ghost e = entries(v@);
    let mut i: usize = 0;
    while i < v.len()
        invariant
            i <= v.len(),
            e == entries(v@),
            forall|j: int| 0 <= j < i ==> (#[trigger] e[j]).0 != name@,
        decreases v.len() - i,
    {
        if same(v[i].name.as_str(), name) {
            proof {
                assert(is_first(e, name@, i as int));
                lemma_position(e, name@, i as int);
            }
            return Some(i);
        }
        proof {
            assert(e[i as int].0 == v[i as int].name@);
        }
        i += 1;
    }
    proof {
        lemma_no_position(e, name@);
    }
    None
}

/// An adapter file: its tensors and its header metadata.
#[derive(Clone, Debug)]
pub struct AdapterFile {
    pub tensors: Vec<TensorEntry>,
    pub meta: Vec<(String, String)>,
}

impl AdapterFile {
    pub open spec fn entries(&self) -> Seq<(Seq<char>, Seq<usize>)> {
        entries(self.tensors@)
    }

    pub open spec fn meta_value(&self, key: Seq<char>) -> Option<Seq<char>> {
        lookup(pairs(self.meta@), key)
    }

    /// The metadata value of `key`.
    pub fn meta_get<'a>(&'a self, key: &str) -> (r: Option<&'a String>)
        ensures
            match r {
                Some(s) => self.meta_value(key@) == Some(s@),
                None => self.meta_value(key@) is None,
            },
    {
        let ghost e = pairs(self.meta@);
        let mut i: usize = 0;
        while i < self.meta.len()
            invariant
                i <= self.meta.len(),
                e == pairs(self.meta@),
                forall|j: int| 0 <= j < i ==> (#[trigger] e[j]).0 != key@,
            decreases self.meta.len() - i,
        {
            if same(self.meta[i].0.as_str(), key) {
                proof {
                    assert(is_first(e, key@, i as int));
                    lemma_position(e, key@, i as int);
                }
                return Some(&self.meta[i].1);
            }
            proof {
                assert(e[i as int].0 == self.meta[i as int].0@);
            }
            i += 1;
        }
        proof {
            lemma_no_position(e, key@);
        }
        None
    }

    /// The file declares itself a LoKr.
    pub open spec fn is_declared_lokr(&self) -> bool {
        self.meta_value("networkType"@) == Some("lokr"@)
    }

    /// Whether the file's metadata declares the LoKr network type.
    pub fn declares_lokr(&self) -> (r: bool)
        ensures
            r == self.is_declared_lokr(),
    {
        match self.meta_get("networkType") {
            Some(s) => same(s.as_str(), "lokr"),
            None => false,
        }
    }
}

/// The most bytes that a file header can have.
pub const HEADER_LIMIT: usize = 100_000_000;

/// The shapes and the metadata in the header of a safetensors file, by key, or `None` where the
/// bytes are no such file.
pub uninterp spec fn safetensors_header(bytes: Seq<u8>) -> Option<
    (Map<Seq<char>, Seq<usize>>, Map<Seq<char>, Seq<char>>),
>;

/// The number that the first `k` bytes spell, the lowest first.
pub open spec fn le_value(b: Seq<u8>, k: int) -> int
    decreases k,
{
    if k <= 0 {
        0
    } else {
        le_value(b.skip(1), k - 1) * 256 + b[0]
    }
}

/// The text of a file's header: behind a length of eight bytes.
pub open spec fn header_text(bytes: Seq<u8>) -> Option<Seq<u8>> {
    if bytes.len() >= 8 && le_value(bytes, 8) <= HEADER_LIMIT && 8 + le_value(bytes, 8)
        <= bytes.len() {
        Some(bytes.subrange(8, 8 + le_value(bytes, 8)))
    } else {
        None
    }
}

/// The bounds of a tensor's data in its entry of the header: a member, or the third of three items.
pub open spec fn bounds_in(entry: Seq<char>) -> Option<Seq<Seq<char>>> {
    match members_of(entry) {
        Some(m) => member_items(m, "data_offsets"@),
        None => match items_of(entry) {
            Some(v) => if v.len() == 3 {
                items_of(v[2])
            } else {
                None
            },
            None => None,
        },
    }
}

/// The data of an entry ends no later than `len`.
pub open spec fn entry_ends(entry: Seq<char>, len: nat) -> bool {
    bounds_in(entry) matches Some(v) && v.len() == 2 && parsed(v[1], len) is Some
}

/// The header, where the bytes have one, is a JSON object, and the data of none of its tensors ends
/// beyond the bytes.
pub open spec fn ends_fit(bytes: Seq<u8>) -> bool {
    header_text(bytes) matches Some(h) ==> {
        &&& json_members(h) matches Some(m)
        &&& forall|i: int|
            0 <= i < m.len() ==> (#[trigger] m[i]).0 == "__metadata__"@ || entry_ends(
                m[i].1,
                bytes.len(),
            )
    }
}

/// The bytes are a safetensors file.
pub open spec fn is_readable(bytes: Seq<u8>) -> bool {
    ends_fit(bytes) && safetensors_header(bytes) is Some
}

/// `safetensors::SafeTensors::read_metadata`: the header is a function of the bytes, and holds each
/// key once; every tensor of it takes more than six bytes. Nothing is said of the order in which the entries come, nor of the error's wording. The call
/// adds to where the last tensor's data end, and panics where that is beyond what can be counted.
#[verifier::external_body]
fn read_header(bytes: &[u8]) -> (r: Result<(Vec<TensorEntry>, Vec<(String, String)>), String>)
    requires
        ends_fit(bytes@),
    ensures
        match r {
            Ok((tensors, meta)) => {
                &&& 6 * tensors.len() <= bytes.len()
                &&& distinct(entries(tensors@))
                &&& distinct(pairs(meta@))
                &&& safetensors_header(bytes@) == Some(
                    (as_map(entries(tensors@)), as_map(pairs(meta@))),
                )
            },
            Err(_) => safetensors_header(bytes@) is None,
        },
{
    let (_, md) = SafeTensors::read_metadata(bytes).map_err(|e| e.to_string())?;
    let tensors = md.tensors().into_iter();
    let tensors = tensors.map(|(name, info)| TensorEntry { name, dims: info.shape.clone() });
    let meta = md.metadata().clone().unwrap_or_default();
    Ok((tensors.collect(), meta.into_iter().collect()))
}

fn read_length(b: &[u8]) -> (r: u64)
    requires
        b.len() >= 8,
    ensures
        r == le_value(b@, 8),
{
    let mut n: u64 = 0;
    let mut k: usize = 8;
    while k > 0
        invariant
            k <= 8,
            b.len() >= 8,
            n == le_value(b@.skip(k as int), 8 - k),
            k >= 1 ==> n < 0x100_0000_0000_0000,
            k >= 2 ==> n < 0x1_0000_0000_0000,
            k >= 3 ==> n < 0x100_0000_0000,
            k >= 4 ==> n < 0x1_0000_0000,
            k >= 5 ==> n < 0x100_0000,
            k >= 6 ==> n < 0x1_0000,
            k >= 7 ==> n < 0x100,
            k >= 8 ==> n < 1,
        decreases k,
    {
        k -= 1;
        proof {
            assert(b@.skip(k as int).skip(1) =~= b@.skip(k + 1));
        }
        n = n * 256 + b[k] as u64;
    }
    proof {
        assert(b@.skip(0) =~= b@);
    }
    n
}

fn check_entry(entry: &str, len: usize) -> (r: bool)
    ensures
        r == entry_ends(entry@, len as nat),
{
    let bounds = match members_in(entry) {
        Some(m) => items_at(&m, "data_offsets"),
        None => match read_items(entry.as_bytes()) {
            Some(v) => {
                proof {
                    assert(views(v@).len() == v.len());
                }
                if v.len() != 3 {
                    return false;
                }
                proof {
                    assert(views(v@)[2] == v[2]@);
                }
                read_items(v[2].as_str().as_bytes())
            },
            None => None,
        },
    };
    match bounds {
        Some(v) => {
            proof {
                assert(views(v@).len() == v.len());
            }
            if v.len() != 2 {
                return false;
            }
            proof {
                assert(views(v@)[1] == v[1]@);
            }
            parse_up_to(v[1].as_str(), len as u64).is_some()
        },
        None => false,
    }
}

fn check_ends(bytes: &[u8]) -> (r: bool)
    ensures
        r == ends_fit(bytes@),
{
    if bytes.len() < 8 {
        return true;
    }
    let n: u64 = read_length(bytes);
    if n > HEADER_LIMIT as u64 || n > (bytes.len() - 8) as u64 {
        return true;
    }
    let n: usize = n as usize;
    let header = slice_subrange(bytes, 8, 8 + n);
    let m = match read_members(header) {
        Ok(m) => m,
        Err(_) => {
            return false;
        },
    };
    let ghost all = pairs(m@);
    let mut i: usize = 0;
    while i < m.len()
        invariant
            i <= m.len(),
            all == pairs(m@),
            all.len() == m.len(),
            header_text(bytes@) == Some(header@),
            json_members(header@) == Some(all),
            forall|k: int|
                0 <= k < i ==> (#[trigger] all[k]).0 == "__metadata__"@ || entry_ends(
                    all[k].1,
                    bytes@.len(),
                ),
        decreases m.len() - i,
    {
        proof {
            assert(all[i as int] == (m[i as int].0@, m[i as int].1@));
        }
        if !same(m[i].0.as_str(), "__metadata__") && !check_entry(m[i].1.as_str(), bytes.len()) {
            proof {
                let w = json_members(header_text(bytes@)->0)->0;
                assert(!(w[i as int].0 == "__metadata__"@ || entry_ends(
                    w[i as int].1,
                    bytes@.len(),
                )));
            }
            return false;
        }
        i += 1;
    }
    true
}

/// `f` holds what the header of `bytes` holds.
pub open spec fn is_adapter_of(f: &AdapterFile, bytes: Seq<u8>) -> bool {
    &&& is_readable(bytes)
    &&& distinct(f.entries())
    &&& distinct(pairs(f.meta@))
    &&& safetensors_header(bytes) == Some((as_map(f.entries()), as_map(pairs(f.meta@))))
}

/// Reads the header of an adapter file. Bytes that are no such file are refused, with the reader's own
/// error where no tensor of the header ends beyond them.
pub fn read_adapter(bytes: &[u8]) -> (r: Result<AdapterFile, String>)
    ensures
        match r {
            Ok(f) => is_adapter_of(&f, bytes@) && 6 * f.tensors.len() <= bytes.len(),
            Err(e) => {
                &&& !is_readable(bytes@)
                &&& !ends_fit(bytes@) ==> e@ == "the header does not keep its tensors within the file"@
            },
        },
{
    if !check_ends(bytes) {
        return Err(String::from_str("the header does not keep its tensors within the file"));
    }
    match read_header(bytes) {
        Ok((tensors, meta)) => Ok(AdapterFile { tensors, meta }),
        Err(e) => Err(e),
    }
}

/// The bytes of the first `k` files together.
pub open spec fn total_len(files: Seq<Vec<u8>>, k: int) -> int
    decreases k,
{
    if k <= 0 {
        0
    } else {
        total_len(files, k - 1) + files[k - 1].len()
    }
}

pub proof fn lemma_total_grows(files: Seq<Vec<u8>>, i: int, k: int)
    requires
        i <= k,
    ensures
        0 <= total_len(files, i) <= total_len(files, k),
    decreases k,
{
    if k > 0 {
        if i < k {
            lemma_total_grows(files, i, k - 1);
        } else {
            lemma_total_grows(files, k - 1, k - 1);
        }
    }
}

/// The table of flattened module names: each adaptable base weight's dotted path, by that path with
/// `_` for `.`.
#[derive(Clone, Debug)]
pub struct KohyaTable {
    pub rows: Vec<(String, String)>,
}

/// The dotted path of a flattened name.
pub open spec fn table_path(table: Map<Seq<char>, Seq<char>>, flat: Seq<char>) -> Option<
    Seq<char>,
> {
    if table.contains_key(flat) {
        Some(table[flat])
    } else {
        None
    }
}

/// Some flattened name resolves to `path`.
pub open spec fn table_has(table: Map<Seq<char>, Seq<char>>, path: Seq<char>) -> bool {
    exists|flat: Seq<char>| table_path(table, flat) == Some(path)
}

impl KohyaTable {
    pub open spec fn wf(&self) -> bool {
        distinct(pairs(self.rows@))
    }

    /// The dotted path of each flattened name.
    pub open spec fn view(&self) -> Map<Seq<char>, Seq<char>> {
        as_map(pairs(self.rows@))
    }

    fn find(&self, flat: &str) -> (r: Option<usize>)
        ensures
            match r {
                Some(i) => i < self.rows.len() && position(pairs(self.rows@), flat@) == Some(
                    i as int,
                ) && is_first(pairs(self.rows@), flat@, i as int),
                None => position(pairs(self.rows@), flat@) is None && forall|j: int|
                    0 <= j < self.rows.len() ==> (#[trigger] pairs(self.rows@)[j]).0 != flat@,
            },
    {
        let ghost e = pairs(self.rows@);
        let mut i: usize = 0;
        while i < self.rows.len()
            invariant
                i <= self.rows.len(),
                e == pairs(self.rows@),
                forall|j: int| 0 <= j < i ==> (#[trigger] e[j]).0 != flat@,
            decreases self.rows.len() - i,
        {
            if same(self.rows[i].0.as_str(), flat) {
                proof {
                    assert(is_first(e, flat@, i as int));
                    lemma_position(e, flat@, i as int);
                }
                return Some(i);
            }
            proof {
                assert(e[i as int].0 == self.rows[i as int].0@);
            }
            i += 1;
        }
        proof {
            lemma_no_position(e, flat@);
        }
        None
    }

    /// The dotted path of a flattened name.
    pub fn get<'a>(&'a self, flat: &str) -> (r: Option<&'a String>)
        ensures
            match r {
                Some(s) => table_path(self@, flat@) == Some(s@),
                None => table_path(self@, flat@) is None,
            },
    {
        match self.find(flat) {
            Some(i) => Some(&self.rows[i].1),
            None => None,
        }
    }

    /// Whether some flattened name resolves to `path`.
    pub fn contains_path(&self, path: &str) -> (r: bool)
        requires
            self.wf(),
        ensures
            r == table_has(self@, path@),
    {
        let ghost e = pairs(self.rows@);
        let mut i: usize = 0;
        while i < self.rows.len()
            invariant
                i <= self.rows.len(),
                e == pairs(self.rows@),
                distinct(e),
                forall|j: int| 0 <= j < i ==> (#[trigger] e[j]).1 != path@,
            decreases self.rows.len() - i,
        {
            proof {
                assert(e[i as int].1 == self.rows[i as int].1@);
            }
            if same(self.rows[i].1.as_str(), path) {
                proof {
                    lemma_lookup_distinct(e, i as int);
                    assert(table_path(self@, e[i as int].0) == Some(path@));
                }
                return true;
            }
            i += 1;
        }
        proof {
            assert forall|flat: Seq<char>| table_path(self@, flat) != Some(path@) by {
                if lookup(e, flat) is Some {
                    let j = lemma_lookup_some(e, flat);
                    assert(e[j].1 != path@);
                }
            }
        }
        false
    }

    /// Lets `flat` resolve to `dotted`, in place of what it resolved to.
    fn insert(&mut self, flat: String, dotted: String)
        requires
            old(self).wf(),
        ensures
            final(self).wf(),
            final(self)@ == old(self)@.insert(flat@, dotted@),
    {
        let ghost before = pairs(self.rows@);
        let ghost f = flat@;
        let ghost d = dotted@;
        match self.find(flat.as_str()) {
            Some(i) => {
                self.rows.set(i, (flat, dotted));
                proof {
                    let after = pairs(self.rows@);
                    assert(after =~= before.update(i as int, (f, d)));
                    lemma_update_map(before, i as int, f, d);
                }
            },
            None => {
                self.rows.push((flat, dotted));
                proof {
                    let after = pairs(self.rows@);
                    assert(after =~= before.push((f, d)));
                    lemma_push_map(before, f, d);
                }
            },
        }
    }
}

proof fn lemma_lookup_distinct<V>(e: Seq<(Seq<char>, V)>, i: int)
    requires
        distinct(e),
        0 <= i < e.len(),
    ensures
        lookup(e, e[i].0) == Some(e[i].1),
{
    assert(is_first(e, e[i].0, i)) by {
        assert forall|j: int| 0 <= j < i implies (#[trigger] e[j]).0 != e[i].0 by {}
    }
    lemma_position(e, e[i].0, i);
}

proof fn lemma_lookup_some<V>(e: Seq<(Seq<char>, V)>, k: Seq<char>) -> (i: int)
    requires
        lookup(e, k) is Some,
    ensures
        is_first(e, k, i),
        lookup(e, k) == Some(e[i].1),
{
    choose|i: int| is_first(e, k, i)
}

proof fn lemma_push_map<V>(e: Seq<(Seq<char>, V)>, k: Seq<char>, v: V)
    requires
        distinct(e),
        forall|j: int| 0 <= j < e.len() ==> (#[trigger] e[j]).0 != k,
    ensures
        distinct(e.push((k, v))),
        as_map(e.push((k, v))) == as_map(e).insert(k, v),
{
    let after = e.push((k, v));
    assert(distinct(after));
    lemma_lookup_distinct(after, e.len() as int);
    assert forall|x: Seq<char>| x != k implies lookup(after, x) == lookup(e, x) by {
        if lookup(e, x) is Some {
            let i = lemma_lookup_some(e, x);
            assert(after[i] == e[i]);
            lemma_lookup_distinct(after, i);
        }
        if lookup(after, x) is Some {
            let i = lemma_lookup_some(after, x);
            assert(i < e.len());
            assert(after[i] == e[i]);
            lemma_lookup_distinct(e, i);
        }
    }
    assert(as_map(after) =~= as_map(e).insert(k, v));
}

proof fn lemma_update_map<V>(e: Seq<(Seq<char>, V)>, at: int, k: Seq<char>, v: V)
    requires
        distinct(e),
        0 <= at < e.len(),
        e[at].0 == k,
    ensures
        distinct(e.update(at, (k, v))),
        as_map(e.update(at, (k, v))) == as_map(e).insert(k, v),
{
    let after = e.update(at, (k, v));
    assert forall|i: int, j: int| 0 <= i < j < after.len() implies (#[trigger] after[i]).0 != (
    #[trigger] after[j]).0 by {
        assert(after[i].0 == e[i].0 && after[j].0 == e[j].0);
    }
    lemma_lookup_distinct(after, at);
    assert forall|x: Seq<char>| x != k implies lookup(after, x) == lookup(e, x) by {
        if lookup(e, x) is Some {
            let i = lemma_lookup_some(e, x);
            assert(after[i] == e[i]);
            lemma_lookup_distinct(after, i);
        }
        if lookup(after, x) is Some {
            let i = lemma_lookup_some(after, x);
            assert(after[i] == e[i]);
            lemma_lookup_distinct(e, i);
        }
    }
    assert(as_map(after) =~= as_map(e).insert(k, v));
}

/// The flattened-name table of the first `k` base entries: every `<path>.weight` of an adaptable
/// number of dimensions. `convs` admits the 4-D ones.
pub open spec fn kohya_rows(
    base: Seq<(Seq<char>, Seq<usize>)>,
    convs: bool,
    k: int,
) -> Map<Seq<char>, Seq<char>>
    decreases k,
{
    if k <= 0 {
        Map::empty()
    } else {
        let before = kohya_rows(base, convs, k - 1);
        let (name, dims) = base[k - 1];
        if ends(name, ".weight"@) && (dims.len() == 2 || (convs && dims.len() == 4)) {
            let dotted = without_suffix(name, ".weight"@)->0;
            before.insert(flattened(dotted), dotted)
        } else {
            before
        }
    }
}

/// A base entry that the table takes in.
pub open spec fn in_table(entry: (Seq<char>, Seq<usize>), convs: bool) -> bool {
    ends(entry.0, ".weight"@) && (entry.1.len() == 2 || (convs && entry.1.len() == 4))
}

/// The dotted path of a weight.
pub open spec fn weight_path(entry: (Seq<char>, Seq<usize>)) -> Seq<char> {
    without_suffix(entry.0, ".weight"@)->0
}

/// The flattened name of every adaptable base weight resolves to its path, where no other path has
/// the same flattened name.
pub proof fn law_flattened_names_resolve(
    base: Seq<(Seq<char>, Seq<usize>)>,
    convs: bool,
    i: int,
    k: int,
)
    requires
        0 <= i < k <= base.len(),
        in_table(base[i], convs),
        forall|j: int|
            0 <= j < k && in_table(#[trigger] base[j], convs) && flattened(weight_path(base[j]))
                == flattened(weight_path(base[i])) ==> weight_path(base[j]) == weight_path(base[i]),
    ensures
        table_path(kohya_rows(base, convs, k), flattened(weight_path(base[i]))) == Some(
            weight_path(base[i]),
        ),
    decreases k,
{
    if i < k - 1 {
        law_flattened_names_resolve(base, convs, i, k - 1);
        assert(in_table(base[k - 1], convs) || !in_table(base[k - 1], convs));
    }
}

/// Builds the flattened-name table of a base checkpoint.
pub fn build_table(base: &Vec<TensorEntry>, convs: bool) -> (r: KohyaTable)
    ensures
        r.wf(),
        r@ == kohya_rows(entries(base@), convs, base.len() as int),
{
    let mut table = KohyaTable { rows: Vec::new() };
    proof {
        assert(pairs(table.rows@) =~= Seq::<(Seq<char>, Seq<char>)>::empty());
        assert(as_map(pairs(table.rows@)) =~= Map::<Seq<char>, Seq<char>>::empty()) by {
            assert forall|k: Seq<char>| lookup(pairs(table.rows@), k) is None by {
                lemma_no_position(pairs(table.rows@), k);
            }
        }
    }
    let mut i: usize = 0;
    while i < base.len()
        invariant
            i <= base.len(),
            table.wf(),
            table@ == kohya_rows(entries(base@), convs, i as int),
        decreases base.len() - i,
    {
        let nd: usize = base[i].dims.len();
        proof {
            assert(entries(base@)[i as int] == (base[i as int].name@, base[i as int].dims@));
        }
        if let Some(dotted) = strip_suffix(base[i].name.as_str(), ".weight") {
            if nd == 2 || (convs && nd == 4) {
                table.insert(flatten(dotted), String::from_str(dotted));
            }
        }
        i += 1;
    }
    table
}

/// A base weight and the rows of a delta that are added to it.
#[derive(Clone, Copy, Debug, PartialEq, Eq, Structural)]
pub struct Fold {
    /// The position of the weight among the base tensors.
    pub base: usize,
    pub first_row: usize,
    pub rows: usize,
}

/// The table holds nothing but paths of adaptable base weights, each under its own flattened name.
pub proof fn law_table_holds_base_weights(
    base: Seq<(Seq<char>, Seq<usize>)>,
    convs: bool,
    k: int,
    flat: Seq<char>,
)
    requires
        0 <= k <= base.len(),
        table_path(kohya_rows(base, convs, k), flat) is Some,
    ensures
        exists|i: int|
            {
                &&& 0 <= i < k
                &&& in_table(#[trigger] base[i], convs)
                &&& flattened(weight_path(base[i])) == flat
                &&& table_path(kohya_rows(base, convs, k), flat) == Some(weight_path(base[i]))
            },
    decreases k,
{
    if k > 0 {
        let before = kohya_rows(base, convs, k - 1);
        if in_table(base[k - 1], convs) && flattened(weight_path(base[k - 1])) == flat {
            assert(table_path(kohya_rows(base, convs, k), flat) == Some(weight_path(base[k - 1])));
        } else {
            assert(table_path(before, flat) == table_path(kohya_rows(base, convs, k), flat));
            law_table_holds_base_weights(base, convs, k - 1, flat);
        }
    }
}

/// A linear weight is adaptable, a convolution's where those are asked for, and nothing else is: no
/// bias, no vector, no tensor of another name.
pub proof fn law_only_weights_are_adaptable(path: Seq<char>, dims: Seq<usize>, convs: bool)
    ensures
        in_table((path + ".weight"@, dims), convs) <==> dims.len() == 2 || (dims.len() == 4 && convs),
        in_table((path + ".weight"@, dims), convs) ==> weight_path((path + ".weight"@, dims)) == path,
        in_table((path, dims), convs) ==> path == weight_path((path, dims)) + ".weight"@,
{
    crate::text::law_affixes_come_off(path, ".weight"@);
}

/// A header is what stands behind its length, which the first eight bytes spell, the lowest first.
pub proof fn law_headers_stand_behind_their_length(length: Seq<u8>, text: Seq<u8>, data: Seq<u8>)
    requires
        length.len() == 8,
        text.len() <= HEADER_LIMIT,
        text.len() == length[0] + 0x100 * length[1] + 0x1_0000 * length[2] + 0x100_0000 * length[3]
            + 0x1_0000_0000 * length[4] + 0x100_0000_0000 * length[5] + 0x1_0000_0000_0000 * length[6]
            + 0x100_0000_0000_0000 * length[7],
    ensures
        header_text(length + text + data) == Some(text),
        text.len() > 0 ==> header_text(length) is None,
{
    let bytes = length + text + data;
    reveal_with_fuel(le_value, 9);
    assert forall|i: int| 0 <= i < 8 implies #[trigger] bytes[i] == length[i] by {}
    lemma_le_value(bytes);
    lemma_le_value(length);
    assert(bytes.subrange(8, (8 + text.len()) as int) =~= text);
}

/// Eight bytes spell the sum of each times its place.
proof fn lemma_le_value(b: Seq<u8>)
    requires
        b.len() >= 8,
    ensures
        le_value(b, 8) == b[0] + 0x100 * b[1] + 0x1_0000 * b[2] + 0x100_0000 * b[3] + 0x1_0000_0000
            * b[4] + 0x100_0000_0000 * b[5] + 0x1_0000_0000_0000 * b[6] + 0x100_0000_0000_0000 * b[7],
{
    let b1 = b.skip(1);
    let b2 = b1.skip(1);
    let b3 = b2.skip(1);
    let b4 = b3.skip(1);
    let b5 = b4.skip(1);
    let b6 = b5.skip(1);
    let b7 = b6.skip(1);
    assert(le_value(b7.skip(1), 0) == 0);
    assert(le_value(b7, 1) == b[7]);
    assert(le_value(b6, 2) == le_value(b7, 1) * 256 + b[6]);
    assert(le_value(b5, 3) == le_value(b6, 2) * 256 + b[5]);
    assert(le_value(b4, 4) == le_value(b5, 3) * 256 + b[4]);
    assert(le_value(b3, 5) == le_value(b4, 4) * 256 + b[3]);
    assert(le_value(b2, 6) == le_value(b3, 5) * 256 + b[2]);
    assert(le_value(b1, 7) == le_value(b2, 6) * 256 + b[1]);
    assert(le_value(b, 8) == le_value(b1, 7) * 256 + b[0]);
}

/// What a file's metadata says of a key is the value that stands with it, and a tensor is found where it
/// stands; what is not there is not found.
pub proof fn law_entries_are_found_by_name(f: &AdapterFile, i: int, name: Seq<char>)
    requires
        distinct(f.entries()),
        distinct(pairs(f.meta@)),
    ensures
        0 <= i < f.meta.len() ==> f.meta_value(f.meta[i].0@) == Some(f.meta[i].1@),
        (forall|j: int| 0 <= j < f.meta.len() ==> (#[trigger] f.meta[j]).0@ != name) ==> f.meta_value(
            name,
        ) is None,
        0 <= i < f.tensors.len() ==> position(f.entries(), f.tensors[i].name@) == Some(i) && lookup(
            f.entries(),
            f.tensors[i].name@,
        ) == Some(f.tensors[i].dims@),
{
    let m = pairs(f.meta@);
    let e = f.entries();
    if 0 <= i < f.meta.len() {
        assert(m[i] == (f.meta[i].0@, f.meta[i].1@));
        lemma_lookup_distinct(m, i);
    }
    if forall|j: int| 0 <= j < f.meta.len() ==> (#[trigger] f.meta[j]).0@ != name {
        assert forall|j: int| 0 <= j < m.len() implies (#[trigger] m[j]).0 != name by {
            assert(m[j].0 == f.meta[j].0@);
        }
        lemma_no_position(m, name);
    }
    if 0 <= i < f.tensors.len() {
        assert(e[i] == (f.tensors[i].name@, f.tensors[i].dims@));
        assert(is_first(e, e[i].0, i)) by {
            assert forall|j: int| 0 <= j < i implies (#[trigger] e[j]).0 != e[i].0 by {}
        }
        lemma_position(e, e[i].0, i);
    }
}

/// A file declares itself a LoKr by its metadata alone, under one key and with one word.
pub proof fn law_lokr_is_declared_in_the_metadata(f: &AdapterFile, i: int)
    requires
        distinct(pairs(f.meta@)),
        0 <= i < f.meta.len(),
        f.meta[i].0@ == "networkType"@,
    ensures
        f.is_declared_lokr() <==> f.meta[i].1@ == "lokr"@,
{
    let m = pairs(f.meta@);
    assert(m[i] == (f.meta[i].0@, f.meta[i].1@));
    lemma_lookup_distinct(m, i);
}

/// What is read of a file is what its bytes hold: whoever reads them has the same tensors and metadata.
pub proof fn law_readings_agree(f: &AdapterFile, g: &AdapterFile, bytes: Seq<u8>)
    requires
        is_adapter_of(f, bytes),
        is_adapter_of(g, bytes),
    ensures
        is_readable(bytes),
        as_map(f.entries()) == as_map(g.entries()),
        as_map(pairs(f.meta@)) == as_map(pairs(g.meta@)),
        distinct(f.entries()) && distinct(pairs(f.meta@)),
{
}

} // verus!
