use vstd::prelude::*;

verus! {

/// Whether `c` has the Unicode `White_Space` property: the separators
/// the touch protocol accepts between fields of an event line.
pub open spec fn is_ws(c: char) -> bool {
    let n = c as u32;
    ||| n == 0x09
    ||| n == 0x0A
    ||| n == 0x0B
    ||| n == 0x0C
    ||| n == 0x0D
    ||| n == 0x20
    ||| n == 0x85
    ||| n == 0xA0
    ||| n == 0x1680
    ||| 0x2000 <= n <= 0x200A
    ||| n == 0x2028
    ||| n == 0x2029
    ||| n == 0x202F
    ||| n == 0x205F
    ||| n == 0x3000
}

fn is_ws_char(c: char) -> (r: bool)
    ensures
        r == is_ws(c),
{
    let n = c as u32;
    n == 0x09 || n == 0x0A || n == 0x0B || n == 0x0C || n == 0x0D || n == 0x20 || n == 0x85
        || n == 0xA0 || n == 0x1680 || (0x2000 <= n && n <= 0x200A) || n == 0x2028
        || n == 0x2029 || n == 0x202F || n == 0x205F || n == 0x3000
}

/// Whether `c` is an ASCII decimal digit.
pub open spec fn is_digit(c: char) -> bool {
    0x30 <= c as u32 <= 0x39
}

/// The numeric value of an ASCII decimal digit.
pub open spec fn digit_val(c: char) -> int {
    c as u32 - 0x30
}

/// Whether every character of `s` is an ASCII decimal digit.
pub open spec fn all_digits(s: Seq<char>) -> bool {
    forall|i: int| 0 <= i < s.len() ==> is_digit(#[trigger] s[i])
}

/// The value of a string of decimal digits, most significant first.
pub open spec fn digits_val(s: Seq<char>) -> int
    decreases s.len(),
{
    if s.len() == 0 {
        0
    } else {
        10 * digits_val(s.drop_last()) + digit_val(s.last())
    }
}

/// Decimal decoding of a whole token, as `u32::from_str` accepts it: an
/// optional leading `+`, then one or more ASCII digits whose value fits
/// in a `u32`; anything else is `None`.
pub open spec fn spec_parse_u32(s: Seq<char>) -> Option<u32> {
    let ds = if s.len() >= 1 && s[0] == '+' {
        s.skip(1)
    } else {
        s
    };
    if ds.len() >= 1 && all_digits(ds) && digits_val(ds) <= u32::MAX {
        Some(digits_val(ds) as u32)
    } else {
        None
    }
}

proof fn lemma_digits_val_nonneg(s: Seq<char>)
    requires
        all_digits(s),
    ensures
        digits_val(s) >= 0,
    decreases s.len(),
{
    if s.len() > 0 {
        lemma_digits_val_nonneg(s.drop_last());
    }
}

proof fn lemma_digits_val_prefix_le(s: Seq<char>, m: int)
    requires
        all_digits(s),
        0 <= m <= s.len(),
    ensures
        digits_val(s.take(m)) <= digits_val(s),
    decreases s.len() - m,
{
    if m < s.len() {
        lemma_digits_val_prefix_le(s, m + 1);
        assert(s.take(m + 1).drop_last() =~= s.take(m));
        assert(all_digits(s.take(m)));
        lemma_digits_val_nonneg(s.take(m));
        assert(digits_val(s.take(m + 1)) == 10 * digits_val(s.take(m)) + digit_val(s[m]));
    } else {
        assert(s.take(m) =~= s);
    }
}

/// Decodes a decimal token to a `u32`, exactly as `spec_parse_u32`
/// describes: an optional leading `+`, then digits, rejecting overflow.
#[verifier::loop_isolation(false)]
pub fn parse_u32_str(s: &str) -> (r: Option<u32>)
    ensures
        r == spec_parse_u32(s@),
{
    let len = s.unicode_len();
    let mut i: usize = 0;
    if len >= 1 && s.get_char(0) == '+' {
        i = 1;
    }
    let ghost ds = if s@.len() >= 1 && s@[0] == '+' {
        s@.skip(1)
    } else {
        s@
    };
    proof {
        assert(ds =~= s@.subrange(i as int, len as int));
    }
    if i >= len {
        return None;
    }
    let mut acc: u64 = 0;
    let mut j: usize = i;
    while j < len
        invariant
            i <= j <= len,
            i < len,
            len == s@.len(),
            ds == s@.subrange(i as int, len as int),
            all_digits(s@.subrange(i as int, j as int)),
            acc == digits_val(s@.subrange(i as int, j as int)),
            acc <= u32::MAX,
        decreases len - j,
    {
        let c = s.get_char(j);
        let code = c as u32;
        if !(0x30 <= code && code <= 0x39) {
            proof {
                assert(ds[j - i] == s@[j as int]);
            }
            return None;
        }
        let d: u32 = code - 0x30;
        let acc2: u64 = acc * 10 + d as u64;
        proof {
            let pre = s@.subrange(i as int, j as int);
            let ext = s@.subrange(i as int, j as int + 1);
            assert(ext.drop_last() =~= pre);
            assert(ext.last() == s@[j as int]);
            assert(acc2 == digits_val(ext));
        }
        if acc2 > 0xFFFF_FFFF {
            proof {
                if all_digits(ds) {
                    lemma_digits_val_prefix_le(ds, j + 1 - i);
                    assert(ds.take(j + 1 - i) =~= s@.subrange(i as int, j as int + 1));
                }
            }
            return None;
        }
        acc = acc2;
        j = j + 1;
    }
    proof {
        assert(s@.subrange(i as int, j as int) =~= ds);
        assert(ds.len() >= 1);
    }
    Some(acc as u32)
}

/// The end of the token starting at `i`: the first position at or after
/// `i` holding whitespace, or the end of the line.
pub open spec fn token_end_from(s: Seq<char>, i: nat) -> nat
    decreases s.len() - i,
{
    if i >= s.len() {
        s.len()
    } else if is_ws(s[i as int]) {
        i
    } else {
        token_end_from(s, i + 1)
    }
}

proof fn lemma_token_end_from(s: Seq<char>, i: nat)
    requires
        i <= s.len(),
    ensures
        i <= token_end_from(s, i) <= s.len(),
        forall|k: int| i <= k < token_end_from(s, i) ==> !is_ws(#[trigger] s[k]),
        token_end_from(s, i) < s.len() ==> is_ws(s[token_end_from(s, i) as int]),
        i < s.len() && !is_ws(s[i as int]) ==> token_end_from(s, i) > i,
    decreases s.len() - i,
{
    if i < s.len() && !is_ws(s[i as int]) {
        lemma_token_end_from(s, i + 1);
    }
}

/// The whitespace-separated tokens of `s` from position `i` on: maximal
/// runs of non-whitespace characters, in order.
pub open spec fn spec_tokens_from(s: Seq<char>, i: nat) -> Seq<Seq<char>>
    decreases s.len() - i,
    via spec_tokens_from_dec
{
    if i >= s.len() {
        Seq::empty()
    } else if is_ws(s[i as int]) {
        spec_tokens_from(s, i + 1)
    } else {
        seq![s.subrange(i as int, token_end_from(s, i) as int)]
            + spec_tokens_from(s, token_end_from(s, i))
    }
}

#[via_fn]
proof fn spec_tokens_from_dec(s: Seq<char>, i: nat) {
    if i < s.len() && !is_ws(s[i as int]) {
        lemma_token_end_from(s, i);
    }
}

/// The whitespace-separated tokens of the whole line `s`.
pub open spec fn spec_tokens(s: Seq<char>) -> Seq<Seq<char>> {
    spec_tokens_from(s, 0)
}

proof fn lemma_tokens_skip_ws(s: Seq<char>, i: nat, j: nat)
    requires
        i <= j <= s.len(),
        forall|k: int| i <= k < j ==> is_ws(#[trigger] s[k]),
    ensures
        spec_tokens_from(s, i) == spec_tokens_from(s, j),
    decreases j - i,
{
    if i < j {
        lemma_tokens_skip_ws(s, i + 1, j);
    }
}

proof fn lemma_token_end_eq(s: Seq<char>, i: nat, j: nat)
    requires
        i <= j <= s.len(),
        forall|k: int| i <= k < j ==> !is_ws(#[trigger] s[k]),
        j < s.len() ==> is_ws(s[j as int]),
    ensures
        token_end_from(s, i) == j,
    decreases j - i,
{
    if i < j {
        lemma_token_end_eq(s, i + 1, j);
    }
}

/// Scans for the next token at or after `start`: returns its bounds
/// `(first, end)`, or `(len, len)` when only whitespace is left.
fn next_token(s: &str, start: usize) -> (r: (usize, usize))
    requires
        start <= s@.len(),
    ensures
        start <= r.0 <= r.1 <= s@.len(),
        r.0 == s@.len() ==> spec_tokens_from(s@, start as nat) == Seq::<Seq<char>>::empty(),
        r.0 < s@.len() ==> r.0 < r.1 && spec_tokens_from(s@, start as nat) == seq![
            s@.subrange(r.0 as int, r.1 as int),
        ] + spec_tokens_from(s@, r.1 as nat),
{
    let len = s.unicode_len();
    let mut i: usize = start;
    while i < len
        invariant
            start <= i <= len,
            len == s@.len(),
            forall|k: int| start <= k < i ==> is_ws(#[trigger] s@[k]),
        ensures
            start <= i <= len,
            len == s@.len(),
            forall|k: int| start <= k < i ==> is_ws(#[trigger] s@[k]),
            i < len ==> !is_ws(s@[i as int]),
        decreases len - i,
    {
        let c = s.get_char(i);
        if !is_ws_char(c) {
            break ;
        }
        i = i + 1;
    }
    proof {
        lemma_tokens_skip_ws(s@, start as nat, i as nat);
    }
    if i == len {
        return (i, i);
    }
    let mut j: usize = i + 1;
    while j < len
        invariant
            i < j <= len,
            len == s@.len(),
            forall|k: int| i <= k < j ==> !is_ws(#[trigger] s@[k]),
        ensures
            i < j <= len,
            len == s@.len(),
            forall|k: int| i <= k < j ==> !is_ws(#[trigger] s@[k]),
            j < len ==> is_ws(s@[j as int]),
        decreases len - j,
    {
        let c = s.get_char(j);
        if is_ws_char(c) {
            break ;
        }
        j = j + 1;
    }
    proof {
        lemma_token_end_eq(s@, i as nat, j as nat);
    }
    (i, j)
}

/// The three kinds of touch event the digitizer reports.
#[derive(Copy, Clone, Debug, PartialEq, Eq, Structural)]
pub enum TouchKind {
    Press,
    Move,
    Release,
}

/// Decoding of a kind token: an exact, case-sensitive match against the
/// three kind names; anything else is `None`.
pub open spec fn spec_kind_of(s: Seq<char>) -> Option<TouchKind> {
    if s == "Press"@ {
        Some(TouchKind::Press)
    } else if s == "Move"@ {
        Some(TouchKind::Move)
    } else if s == "Release"@ {
        Some(TouchKind::Release)
    } else {
        None
    }
}

#[verifier::loop_isolation(false)]
fn str_eq(a: &str, b: &str) -> (r: bool)
    ensures
        r == (a@ == b@),
{
    let alen = a.unicode_len();
    let blen = b.unicode_len();
    if alen != blen {
        return false;
    }
    let mut i: usize = 0;
    while i < alen
        invariant
            i <= alen,
            alen == a@.len(),
            blen == b@.len(),
            alen == blen,
            forall|k: int| 0 <= k < i ==> a@[k] == b@[k],
        decreases alen - i,
    {
        let ca = a.get_char(i);
        let cb = b.get_char(i);
        if ca != cb {
            return false;
        }
        i = i + 1;
    }
    proof {
        assert(a@ =~= b@);
    }
    true
}

impl TouchKind {
    /// Decodes a kind token by exact string match, as `spec_kind_of`
    /// describes.
    pub fn from_str(string: &str) -> (r: Option<TouchKind>)
        ensures
            r == spec_kind_of(string@),
    {
        if str_eq(string, "Press") {
            Some(TouchKind::Press)
        } else if str_eq(string, "Move") {
            Some(TouchKind::Move)
        } else if str_eq(string, "Release") {
            Some(TouchKind::Release)
        } else {
            None
        }
    }
}

/// One decoded touch event: its kind, the touch-point slot that
/// reported it, and the touched pixel position `[x, y]`.
#[derive(Copy, Clone, Debug, PartialEq, Eq)]
pub struct Touch {
    pub kind: TouchKind,
    pub slot: u32,
    pub position: [u32; 2],
}

/// The fields a well-formed event line decodes to: the line must hold
/// at least four tokens, of which the first is a kind name and the next
/// three are decimal numbers (slot, x, y).  Further tokens are ignored.
/// Any malformed line decodes to `None`.
pub open spec fn spec_touch_fields(s: Seq<char>) -> Option<(TouchKind, u32, u32, u32)> {
    let toks = spec_tokens(s);
    if toks.len() < 4 {
        None
    } else {
        let kind = spec_kind_of(toks[0]);
        let slot = spec_parse_u32(toks[1]);
        let x = spec_parse_u32(toks[2]);
        let y = spec_parse_u32(toks[3]);
        if kind is Some && slot is Some && x is Some && y is Some {
            Some((kind->0, slot->0, x->0, y->0))
        } else {
            None
        }
    }
}

impl Touch {
    /// Decodes one line of the touch protocol, as `spec_touch_fields`
    /// describes; a malformed line yields `None`, never an error.
    pub fn from_str(string: &str) -> (r: Option<Touch>)
        ensures
            r is Some <==> spec_touch_fields(string@) is Some,
            r matches Some(t) ==> spec_touch_fields(string@) matches Some(f) && t.kind == f.0
                && t.slot == f.1 && t.position[0] == f.2 && t.position[1] == f.3,
    {
        let len = string.unicode_len();
        let (a0, b0) = next_token(string, 0);
        if a0 == len {
            return None;
        }
        let (a1, b1) = next_token(string, b0);
        if a1 == len {
            return None;
        }
        let (a2, b2) = next_token(string, b1);
        if a2 == len {
            return None;
        }
        let (a3, b3) = next_token(string, b2);
        if a3 == len {
            return None;
        }
        proof {
            let toks = spec_tokens(string@);
            assert(toks[0] == string@.subrange(a0 as int, b0 as int));
            assert(toks[1] == string@.subrange(a1 as int, b1 as int));
            assert(toks[2] == string@.subrange(a2 as int, b2 as int));
            assert(toks[3] == string@.subrange(a3 as int, b3 as int));
            assert(toks.len() >= 4);
        }
        let kind = match TouchKind::from_str(string.substring_char(a0, b0)) {
            Some(k) => k,
            None => {
                return None;
            },
        };
        let slot = match parse_u32_str(string.substring_char(a1, b1)) {
            Some(v) => v,
            None => {
                return None;
            },
        };
        let x = match parse_u32_str(string.substring_char(a2, b2)) {
            Some(v) => v,
            None => {
                return None;
            },
        };
        let y = match parse_u32_str(string.substring_char(a3, b3)) {
            Some(v) => v,
            None => {
                return None;
            },
        };
        Some(Touch { kind, slot, position: [x, y] })
    }
}

} // verus!
