//! Compiled character maps: the SentencePiece normalisation tables that a tokenizer definition
//! carries in base 64, and when they can be followed without leaving them.
use vstd::prelude::*;
use vstd::slice::slice_subrange;
use vstd::utf8::valid_utf8;

verus! {

/// The value of a base-64 digit, or -1.
pub open spec fn sextet(c: char) -> int {
    if 'A' <= c <= 'Z' {
        c as u32 - 65
    } else if 'a' <= c <= 'z' {
        c as u32 - 71
    } else if '0' <= c <= '9' {
        c as u32 + 4
    } else if c == '+' {
        62
    } else if c == '/' {
        63
    } else {
        -1
    }
}

fn sextet_of(c: char) -> (r: Option<u8>)
    ensures
        match r {
            Some(v) => v == sextet(c) && v < 64,
            None => sextet(c) == -1,
        },
{
    let u: u32 = c as u32;
    if 'A' <= c && c <= 'Z' {
        Some((u - 65) as u8)
    } else if 'a' <= c && c <= 'z' {
        Some((u - 71) as u8)
    } else if '0' <= c && c <= '9' {
        Some((u + 4) as u8)
    } else if c == '+' {
        Some(62)
    } else if c == '/' {
        Some(63)
    } else {
        None
    }
}

/// How many `=` end the text.
pub open spec fn pads(s: Seq<char>) -> int {
    let n = s.len() as int;
    if n >= 1 && s[n - 1] == '=' {
        if n >= 2 && s[n - 2] == '=' {
            2
        } else {
            1
        }
    } else {
        0
    }
}

/// The text is base 64: whole groups of four, the last one padded, with no bits left over.
pub open spec fn is_base64(s: Seq<char>) -> bool {
    let n = s.len() as int;
    &&& n % 4 == 0
    &&& forall|i: int| 0 <= i < n - pads(s) ==> sextet(#[trigger] s[i]) >= 0
    &&& pads(s) == 1 ==> sextet(s[n - 2]) % 4 == 0
    &&& pads(s) == 2 ==> sextet(s[n - 3]) % 16 == 0
}

/// Byte `k` of the decoded text.
pub open spec fn byte_at(s: Seq<char>, k: int) -> u8 {
    let i = k / 3 * 4 + k % 3;
    let (a, b) = (sextet(s[i]), sextet(s[i + 1]));
    (if k % 3 == 0 {
        a * 4 + b / 16
    } else if k % 3 == 1 {
        a % 16 * 16 + b / 4
    } else {
        a % 4 * 64 + b
    }) as u8
}

/// The decoded text.
pub open spec fn decoded(s: Seq<char>) -> Seq<u8> {
    Seq::new((s.len() / 4 * 3 - pads(s)) as nat, |k: int| byte_at(s, k))
}

/// Decodes base 64.
fn decode(s: &Vec<char>) -> (r: Option<Vec<u8>>)
    ensures
        match r {
            Some(v) => is_base64(s@) && v@ == decoded(s@),
            None => !is_base64(s@),
        },
{
    let n: usize = s.len();
    if n % 4 != 0 {
        return None;
    }
    let pad: usize = if n >= 1 && s[n - 1] == '=' {
        if n >= 2 && s[n - 2] == '=' {
            2
        } else {
            1
        }
    } else {
        0
    };
    let mut d: Vec<u8> = Vec::new();
    let mut i: usize = 0;
    while i < n - pad
        invariant
            i <= n - pad,
            n == s.len(),
            pad == pads(s@),
            pad <= n,
            d.len() == i,
            forall|j: int| 0 <= j < i ==> sextet(#[trigger] s@[j]) >= 0,
            forall|j: int| 0 <= j < i ==> #[trigger] d[j] == sextet(s@[j]) && d[j] < 64,
        decreases n - pad - i,
    {
        match sextet_of(s[i]) {
            Some(v) => {
                d.push(v);
            },
            None => {
                return None;
            },
        }
        i += 1;
    }
    if pad == 1 && d[n - 2] % 4 != 0 || pad == 2 && d[n - 3] % 16 != 0 {
        return None;
    }
    let len: usize = n / 4 * 3 - pad;
    let mut out: Vec<u8> = Vec::new();
    let mut k: usize = 0;
    while k < len
        invariant
            k <= len,
            n == s.len(),
            n % 4 == 0,
            pad == pads(s@),
            len == n / 4 * 3 - pad,
            d.len() == n - pad,
            forall|j: int| 0 <= j < n - pad ==> #[trigger] d[j] == sextet(s@[j]) && d[j] < 64,
            out@ == Seq::new(k as nat, |j: int| byte_at(s@, j)),
        decreases len - k,
    {
        let at: usize = k / 3 * 4 + k % 3;
        proof {
            assert(at + 1 < n - pad);
            assert(d[at as int] == sextet(s@[at as int]));
            assert(d[at + 1] == sextet(s@[at + 1]));
        }
        let a: u8 = d[at];
        let b: u8 = d[at + 1];
        let v: u8 = if k % 3 == 0 {
            a * 4 + b / 16
        } else if k % 3 == 1 {
            a % 16 * 16 + b / 4
        } else {
            a % 4 * 64 + b
        };
        out.push(v);
        k += 1;
        proof {
            assert(out@ =~= Seq::new(k as nat, |j: int| byte_at(s@, j)));
        }
    }
    Some(out)
}

/// The little-endian word at byte `at`.
pub open spec fn word(b: Seq<u8>, at: int) -> u32 {
    (b[at] + b[at + 1] * 0x100 + b[at + 2] * 0x1_0000 + b[at + 3] * 0x100_0000) as u32
}

fn word_of(b: &Vec<u8>, at: usize) -> (r: u32)
    requires
        at + 4 <= b.len(),
    ensures
        r == word(b@, at as int),
{
    b[at] as u32 + b[at + 1] as u32 * 0x100 + b[at + 2] as u32 * 0x1_0000 + b[at + 3] as u32
        * 0x100_0000
}

/// The number of trie units that the map announces.
pub open spec fn unit_count(b: Seq<u8>) -> int {
    word(b, 0) as int / 4
}

/// How far, by exclusive or, the children of a unit lie from it.
pub open spec fn offset(u: u32) -> u32 {
    (u as int / 0x400 * (if u as int / 0x200 % 2 == 1 {
        0x100int
    } else {
        1int
    })) as u32
}

/// Unit `i` leads only to units of the trie, and to replacement texts that start on a character.
pub open spec fn unit_fits(b: Seq<u8>, i: int) -> bool {
    let n = unit_count(b);
    let rest = b.skip(4 + 4 * n);
    let u = word(b, 4 + 4 * i);
    let base = ((i as u32) ^ offset(u)) as int;
    i == 0 || u < 0x8000_0000 ==> {
        &&& base / 0x100 * 0x100 + 0xff < n
        &&& i > 0 && u as int / 0x100 % 2 == 1 ==> {
            let at = word(b, 4 + 4 * base) as int % 0x8000_0000;
            at <= rest.len() && (at < rest.len() ==> rest[at] as int / 64 != 2)
        }
    }
}

/// The map can be followed for every text: it has the trie that it announces, its replacement texts
/// are UTF-8, and no unit leads out of it.
pub open spec fn is_sound_map(b: Seq<u8>) -> bool {
    &&& b.len() >= 4
    &&& unit_count(b) >= 1
    &&& 4 + 4 * unit_count(b) <= b.len()
    &&& valid_utf8(b.skip(4 + 4 * unit_count(b)))
    &&& forall|i: int| 0 <= i < unit_count(b) ==> #[trigger] unit_fits(b, i)
}

/// `std::str::from_utf8`: whether the bytes are UTF-8.
#[verifier::external_body]
fn is_utf8(bytes: &[u8]) -> (r: bool)
    ensures
        r == valid_utf8(bytes@),
{
    std::str::from_utf8(bytes).is_ok()
}

fn check_unit(b: &Vec<u8>, n: u32, i: u32) -> (r: bool)
    requires
        b.len() >= 4,
        n == unit_count(b@),
        4 + 4 * n <= b.len(),
        i < n,
    ensures
        r == unit_fits(b@, i as int),
{
    let start: usize = 4 + 4 * n as usize;
    let u: u32 = word_of(b, 4 + 4 * i as usize);
    if i > 0 && u >= 0x8000_0000 {
        return true;
    }
    let scale: u32 = if u / 0x200 % 2 == 1 {
        0x100
    } else {
        1
    };
    proof {
        assert(u as int / 0x400 * scale as int <= 0x40_0000 * 0x100) by (nonlinear_arith)
            requires
                u as int / 0x400 <= 0x40_0000,
                1 <= scale <= 0x100,
                u as int / 0x400 >= 0,
        ;
    }
    let off: u32 = u / 0x400 * scale;
    let base: u32 = i ^ off;
    if base / 0x100 >= n / 0x100 {
        return false;
    }
    if i > 0 && u / 0x100 % 2 == 1 {
        let at: usize = (word_of(b, 4 + 4 * base as usize) % 0x8000_0000) as usize;
        let len: usize = b.len() - start;
        proof {
            if at < len {
                assert(b@.skip(start as int)[at as int] == b@[start + at]);
            }
        }
        return at <= len && (at == len || b[start + at] / 64 != 2);
    }
    true
}

/// Whether a base-64 text is a map that can be followed for every text.
pub fn check_map(text: &Vec<char>) -> (r: bool)
    ensures
        r == (is_base64(text@) && is_sound_map(decoded(text@))),
{
    let b = match decode(text) {
        Some(b) => b,
        None => {
            return false;
        },
    };
    if b.len() < 4 {
        return false;
    }
    let n: u32 = word_of(&b, 0) / 4;
    if n == 0 || (b.len() - 4) / 4 < n as usize {
        return false;
    }
    let start: usize = 4 + 4 * n as usize;
    let rest = slice_subrange(b.as_slice(), start, b.len());
    proof {
        assert(rest@ =~= b@.skip(start as int));
    }
    if !is_utf8(rest) {
        return false;
    }
    let mut i: u32 = 0;
    while i < n
        invariant
            i <= n,
            b@ == decoded(text@),
            b.len() >= 4,
            n == unit_count(b@),
            4 + 4 * n <= b.len(),
            forall|j: int| 0 <= j < i ==> #[trigger] unit_fits(b@, j),
        decreases n - i,
    {
        if !check_unit(&b, n, i) {
            return false;
        }
        i += 1;
    }
    true
}

} // verus!
