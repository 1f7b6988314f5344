//! The tensors of a checkpoint, by name.
use crate::adapter::{entries, find_tensor, position, TensorEntry};
use crate::error::Error;
use crate::text::{join, views};
use vstd::prelude::*;
use vstd::string::*;

verus! {

/// The element types that a checkpoint holds.
#[derive(Clone, Copy, Debug, PartialEq, Eq, Structural)]
pub enum ElementType {
    U8,
    U32,
    I64,
    Bf16,
    F16,
    F32,
    F64,
}

impl ElementType {
    pub open spec fn floating(self) -> bool {
        self == ElementType::Bf16 || self == ElementType::F16 || self == ElementType::F32 || self
            == ElementType::F64
    }

    /// Whether a tensor of this type is cast to the compute type on load: only a floating one of
    /// another type is. An integer buffer is left as it is.
    pub fn is_cast_to(self, compute: ElementType) -> (r: bool)
        ensures
            r == (self.floating() && self != compute),
    {
        let floating = match self {
            ElementType::Bf16 | ElementType::F16 | ElementType::F32 | ElementType::F64 => true,
            _ => false,
        };
        floating && self != compute
    }
}

/// The tensors of a checkpoint, which the library refers to by their positions.
#[derive(Clone, Debug)]
pub struct Weights {
    pub tensors: Vec<TensorEntry>,
}

impl Weights {
    /// The position of the tensor `key`.
    pub open spec fn find(&self, key: Seq<char>) -> Option<int> {
        position(entries(self.tensors@), key)
    }

    /// The checkpoint with these tensors.
    pub fn from_map(tensors: Vec<TensorEntry>) -> (r: Self)
        ensures
            r.tensors == tensors,
    {
        Weights { tensors }
    }

    /// The position of a tensor that must be there.
    pub fn require(&self, key: &str) -> (r: Result<usize, Error>)
        ensures
            match self.find(key@) {
                Some(i) => r matches Ok(k) && k == i,
                None => r matches Err(e) && e.says("missing tensor: "@ + key@),
            },
    {
        match find_tensor(&self.tensors, key) {
            Some(i) => Ok(i),
            None => Err(Error::Msg(join("missing tensor: ", key))),
        }
    }

    /// Whether a tensor is there.
    pub fn contains(&self, key: &str) -> (r: bool)
        ensures
            r == self.find(key@) is Some,
    {
        find_tensor(&self.tensors, key).is_some()
    }

    /// The names of all tensors.
    pub fn keys(&self) -> (r: Vec<String>)
        ensures
            r.len() == self.tensors.len(),
            forall|i: int| 0 <= i < r.len() ==> (#[trigger] r[i])@ == self.tensors[i].name@,
    {
        let mut out: Vec<String> = Vec::new();
        let mut i: usize = 0;
        while i < self.tensors.len()
            invariant
                i <= self.tensors.len(),
                out.len() == i,
                forall|k: int| 0 <= k < i ==> (#[trigger] out[k])@ == self.tensors[k].name@,
            decreases self.tensors.len() - i,
        {
            out.push(self.tensors[i].name.clone());
            i += 1;
        }
        out
    }

    /// What requiring `keys` one after the other gives: their positions, or the first that is
    /// missing.
    pub open spec fn is_all(&self, r: Result<Vec<usize>, Error>, keys: Seq<Seq<char>>) -> bool {
        match r {
            Ok(v) => v.len() == keys.len() && forall|i: int|
                0 <= i < keys.len() ==> self.find(#[trigger] keys[i]) == Some(v[i] as int),
            Err(e) => exists|i: int|
                {
                    &&& 0 <= i < keys.len()
                    &&& self.find(#[trigger] keys[i]) is None
                    &&& e.says("missing tensor: "@ + keys[i])
                    &&& forall|j: int| 0 <= j < i ==> self.find(#[trigger] keys[j]) is Some
                },
        }
    }

    /// The positions of tensors that must all be there.
    pub fn require_all(&self, keys: &Vec<String>) -> (r: Result<Vec<usize>, Error>)
        ensures
            self.is_all(r, views(keys@)),
    {
        let ghost names = views(keys@);
        let mut out: Vec<usize> = Vec::new();
        let mut i: usize = 0;
        while i < keys.len()
            invariant
                i <= keys.len(),
                names == views(keys@),
                out.len() == i,
                forall|k: int|
                    0 <= k < i ==> self.find(#[trigger] names[k]) == Some(out[k] as int),
            decreases keys.len() - i,
        {
            proof {
                assert(names[i as int] == keys[i as int]@);
            }
            match self.require(keys[i].as_str()) {
                Ok(k) => {
                    out.push(k);
                },
                Err(e) => {
                    return Err(e);
                },
            }
            i += 1;
        }
        Ok(out)
    }
}

/// Appends the name `prefix` + `suffix` to `keys`.
pub fn push_key(keys: &mut Vec<String>, prefix: &str, suffix: &str)
    ensures
        views(final(keys)@) == views(old(keys)@).push(prefix@ + suffix@),
{
    let ghost before = views(keys@);
    keys.push(join(prefix, suffix));
    proof {
        assert(views(keys@) =~= before.push(prefix@ + suffix@));
    }
}

/// Only what is floating is ever cast, and never to the type that it has: the buffers of indices and
/// masks keep theirs.
pub proof fn law_only_floating_tensors_are_cast(t: ElementType)
    ensures
        t.floating() <==> !(t is U8 || t is U32 || t is I64),
{
}

/// Keys that are all there are found where a tensor has the name asked for, each at a position of the
/// checkpoint.
pub proof fn law_keys_are_found_by_their_name(w: &Weights, v: Vec<usize>, keys: Seq<Seq<char>>, i: int)
    requires
        w.is_all(Ok(v), keys),
        0 <= i < keys.len(),
    ensures
        v.len() == keys.len(),
        v[i] < w.tensors.len(),
        w.tensors[v[i] as int].name@ == keys[i],
        forall|j: int| 0 <= j < v[i] ==> (#[trigger] w.tensors[j]).name@ != keys[i],
{
    let e = entries(w.tensors@);
    let k = keys[i];
    assert(w.find(k) == Some(v[i] as int));
    assert(crate::adapter::is_first(e, k, v[i] as int));
    assert forall|j: int| 0 <= j < v[i] implies (#[trigger] w.tensors[j]).name@ != k by {
        assert(e[j].0 == w.tensors[j].name@);
    }
}

} // verus!
