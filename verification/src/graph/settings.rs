//! What the environment says about precision and memory.
use crate::data::text::chars_of;
use crate::data::tokenizer_file::{is_white, parse_number, read_number, white};
use crate::tensor::Device;
use vstd::prelude::*;

verus! {

/// The precision of weights and activations.
#[derive(Clone, Copy, Debug, PartialEq, Eq, Structural)]
pub enum PrecisionMode {
    /// Full precision throughout.
    Fp32,
    /// Weights and activations in 16 bits, gradients and the state of the optimizer in full
    /// precision.
    Bf16Mixed,
}

/// `s` without the white space in front.
pub open spec fn trim_front(s: Seq<char>) -> Seq<char>
    decreases s.len(),
{
    if s.len() > 0 && is_white(s[0]) {
        trim_front(s.skip(1))
    } else {
        s
    }
}

/// `s` without the white space at the end.
pub open spec fn trim_back(s: Seq<char>) -> Seq<char>
    decreases s.len(),
{
    if s.len() > 0 && is_white(s.last()) {
        trim_back(s.drop_last())
    } else {
        s
    }
}

/// `s` without the white space around it.
pub open spec fn trimmed(s: Seq<char>) -> Seq<char> {
    trim_back(trim_front(s))
}

/// A letter of the Latin alphabet as a small one.
pub open spec fn small(c: char) -> char {
    if 'A' <= c <= 'Z' {
        ((c as u32 + 32) as u8) as char
    } else {
        c
    }
}

/// `s` trimmed and in small letters.
pub open spec fn normalized(s: Seq<char>) -> Seq<char> {
    trimmed(s).map_values(|c: char| small(c))
}

/// Removes the white space around a text.
pub fn trim_text(s: &Vec<char>) -> (r: Vec<char>)
    ensures
        r@ == trimmed(s@),
{
    let n: usize = s.len();
    let mut from: usize = 0;
    assert(s@.skip(0) =~= s@);
    while from < n && white(s[from])
        invariant
            from <= n,
            n == s@.len(),
            trim_front(s@.skip(from as int)) == trim_front(s@),
        decreases n - from,
    {
        assert(s@.skip(from as int).skip(1) =~= s@.skip(from + 1));
        from += 1;
    }
    proof {
        if from == n {
            assert(s@.skip(from as int).len() == 0);
        }
        assert(trim_front(s@) == s@.skip(from as int));
        assert(s@.subrange(from as int, n as int) =~= s@.skip(from as int));
    }
    let mut to: usize = n;
    while to > from && white(s[to - 1])
        invariant
            from <= to <= n,
            n == s@.len(),
            trim_back(s@.subrange(from as int, to as int)) == trimmed(s@),
        decreases to,
    {
        assert(s@.subrange(from as int, to as int).drop_last() =~= s@.subrange(
            from as int,
            to - 1,
        ));
        assert(s@.subrange(from as int, to as int).last() == s@[to - 1]);
        to -= 1;
    }
    assert(trimmed(s@) == s@.subrange(from as int, to as int));
    let mut r: Vec<char> = Vec::new();
    let mut i: usize = from;
    while i < to
        invariant
            from <= i <= to <= n,
            n == s@.len(),
            r@ == s@.subrange(from as int, i as int),
        decreases to - i,
    {
        assert(s@.subrange(from as int, i + 1) =~= s@.subrange(from as int, i as int).push(
            s@[i as int],
        ));
        r.push(s[i]);
        i += 1;
    }
    r
}

fn small_of(c: char) -> (r: char)
    ensures
        r == small(c),
{
    if 'A' <= c && c <= 'Z' {
        ((c as u32 + 32) as u8) as char
    } else {
        c
    }
}

fn normal_form(s: &str) -> (r: Vec<char>)
    ensures
        r@ == normalized(s@),
{
    let chars = chars_of(s);
    let t = trim_text(&chars);
    let ghost goal = normalized(s@);
    let mut r: Vec<char> = Vec::new();
    let mut i: usize = 0;
    while i < t.len()
        invariant
            i <= t@.len(),
            t@ == trimmed(s@),
            goal == normalized(s@),
            r@ == goal.take(i as int),
        decreases t@.len() - i,
    {
        let c: char = small_of(t[i]);
        assert(goal.take(i + 1) == goal.take(i as int).push(c));
        r.push(c);
        i += 1;
    }
    assert(goal.take(t@.len() as int) == goal);
    r
}

fn is_text(s: &Vec<char>, t: &str) -> (r: bool)
    ensures
        r == (s@ == t@),
{
    let u = chars_of(t);
    if s.len() != u.len() {
        return false;
    }
    let mut i: usize = 0;
    while i < s.len()
        invariant
            i <= s@.len(),
            u@ == t@,
            s@.len() == u@.len(),
            s@.take(i as int) == u@.take(i as int),
        decreases s@.len() - i,
    {
        if s[i] != u[i] {
            assert(s@[i as int] != u@[i as int]);
            return false;
        }
        assert(s@.take(i + 1) =~= s@.take(i as int).push(s@[i as int]));
        assert(u@.take(i + 1) =~= u@.take(i as int).push(u@[i as int]));
        i += 1;
    }
    assert(s@.take(s@.len() as int) =~= s@);
    assert(u@.take(s@.len() as int) =~= u@);
    true
}

/// Whether the value of `EISEN_PRECISION` asks for mixed precision, as none at all does.
pub fn bf16_requested_by_env(value: Option<&str>) -> (r: bool)
    ensures
        r == match value {
            None => true,
            Some(v) => normalized(v@) == "bf16"@ || normalized(v@) == "auto"@,
        },
{
    match value {
        None => true,
        Some(v) => {
            let n = normal_form(v);
            is_text(&n, "bf16") || is_text(&n, "auto")
        },
    }
}

/// Whether the value of `EISEN_FORCE_FP32` forces full precision.
pub fn force_fp32_by_env(value: Option<&str>) -> (r: bool)
    ensures
        r == match value {
            None => false,
            Some(v) => normalized(v@) == "1"@ || normalized(v@) == "true"@ || normalized(v@)
                == "yes"@,
        },
{
    match value {
        None => false,
        Some(v) => {
            let n = normal_form(v);
            is_text(&n, "1") || is_text(&n, "true") || is_text(&n, "yes")
        },
    }
}

/// The number that a variable holds, or `default` where it is not set or holds none.
pub fn env_usize(value: Option<&str>, default: usize) -> (r: usize)
    ensures
        r == match value {
            None => default,
            Some(v) => match parse_number(v@) {
                None => default,
                Some(n) => n,
            },
        },
{
    match value {
        None => default,
        Some(v) => match read_number(&chars_of(v)) {
            None => default,
            Some(n) => n,
        },
    }
}

/// The number that a variable holds.
pub open spec fn number_in(value: Option<&str>) -> Option<usize> {
    match value {
        None => None,
        Some(v) => parse_number(v@),
    }
}

/// The budget in bytes that a variable gives in mebibytes; none where it holds no number.
pub fn budget_by_env(value: Option<&str>) -> (r: Option<usize>)
    requires
        number_in(value) matches Some(mb) ==> mb * 1024 * 1024 <= usize::MAX,
    ensures
        r == match number_in(value) {
            None => None::<usize>,
            Some(mb) => Some((mb * 1024 * 1024) as usize),
        },
{
    match value {
        None => None,
        Some(v) => match read_number(&chars_of(v)) {
            None => None,
            Some(mb) => Some(mb * 1024 * 1024),
        },
    }
}

/// The precision of a graph: mixed where it is asked for, not ruled out, and the device can.
pub fn choose_precision(requested: bool, forced_full: bool, device: Device, probed: bool) -> (r:
    PrecisionMode)
    ensures
        r == (if requested && !forced_full && device == Device::Gpu && probed {
            PrecisionMode::Bf16Mixed
        } else {
            PrecisionMode::Fp32
        }),
{
    if requested && !forced_full && device == Device::Gpu && probed {
        PrecisionMode::Bf16Mixed
    } else {
        PrecisionMode::Fp32
    }
}

} // verus!
