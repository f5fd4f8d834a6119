//! Character-level string utilities shared by the naming, hierarchy and menu
//! logic: equality and prefix tests, separator scanning, decimal rendering,
//! and parsing of a menu selection.

use vstd::prelude::*;
use crate::VaultError;

verus! {

/// The path separator used inside folder names and item names.
pub open spec fn sep() -> char {
    '/'
}

/// True of the characters treated as path separators when a trailing file
/// name is extracted from an item name.
pub open spec fn is_any_sep(c: char) -> bool {
    c == '/' || c == '\\'
}

/// Compare two string slices character by character.
pub fn str_eq(a: &str, b: &str) -> (r: bool)
    ensures
        r <==> a@ == b@,
{
    let alen = a.unicode_len();
    let blen = b.unicode_len();
    if alen != blen {
        return false;
    }
    let mut i: usize = 0;
    while i < alen
        invariant
            alen == a@.len(),
            alen == b@.len(),
            i <= alen,
            forall|j: int| 0 <= j < i ==> a@[j] == b@[j],
        decreases alen - i,
    {
        if a.get_char(i) != b.get_char(i) {
            return false;
        }
        i += 1;
    }
    proof {
        assert(a@ =~= b@);
    }
    true
}

/// Does `s` begin with `prefix`?
pub fn starts_with_str(s: &str, prefix: &str) -> (r: bool)
    ensures
        r <==> prefix@.is_prefix_of(s@),
{
    let plen = prefix.unicode_len();
    let slen = s.unicode_len();
    if plen > slen {
        return false;
    }
    let mut i: usize = 0;
    while i < plen
        invariant
            plen == prefix@.len(),
            slen == s@.len(),
            plen <= slen,
            i <= plen,
            forall|j: int| 0 <= j < i ==> prefix@[j] == s@[j],
        decreases plen - i,
    {
        if prefix.get_char(i) != s.get_char(i) {
            proof {
                assert(s@.subrange(0, plen as int)[i as int] == s@[i as int]);
            }
            return false;
        }
        i += 1;
    }
    proof {
        assert(prefix@ =~= s@.subrange(0, plen as int));
    }
    true
}

/// Does `s` end with `suffix`?
pub fn ends_with_str(s: &str, suffix: &str) -> (r: bool)
    ensures
        r <==> suffix@.is_suffix_of(s@),
{
    let xlen = suffix.unicode_len();
    let slen = s.unicode_len();
    if xlen > slen {
        return false;
    }
    let base = slen - xlen;
    let mut i: usize = 0;
    while i < xlen
        invariant
            xlen == suffix@.len(),
            slen == s@.len(),
            xlen <= slen,
            base == slen - xlen,
            i <= xlen,
            forall|j: int| 0 <= j < i ==> suffix@[j] == s@[base + j],
        decreases xlen - i,
    {
        if suffix.get_char(i) != s.get_char(base + i) {
            proof {
                assert(s@.subrange(base as int, slen as int)[i as int] == s@[base + i]);
            }
            return false;
        }
        i += 1;
    }
    proof {
        assert(suffix@ =~= s@.subrange(base as int, slen as int));
    }
    true
}

/// Copy a string slice into an owned string.
pub fn str_to_string(s: &str) -> (r: String)
    ensures
        r@ == s@,
{
    String::from_str(s)
}

/// Concatenate two string slices.
pub fn concat2(a: &str, b: &str) -> (r: String)
    ensures
        r@ == a@ + b@,
{
    let mut s = String::from_str(a);
    s.append(b);
    s
}

/// Join two path fragments with the separator: `a/b`.
pub fn path_join(a: &str, b: &str) -> (r: String)
    ensures
        r@ == a@ + seq![sep()] + b@,
{
    proof {
        reveal_strlit("/");
    }
    let mut s = String::from_str(a);
    s.append("/");
    s.append(b);
    s
}

/// The position of the last separator character of `s` drawn from `seps`
/// (`'/'` alone, or `'/'` and `'\\'`), or `-1` where none occurs.
pub open spec fn spec_last_sep_in(s: Seq<char>, both: bool) -> int
    decreases s.len(),
{
    if s.len() == 0 {
        -1
    } else if s.last() == '/' || (both && s.last() == '\\') {
        s.len() - 1
    } else {
        spec_last_sep_in(s.drop_last(), both)
    }
}

/// What `spec_last_sep_in` returns is either `-1` or a separator position
/// after every other separator.
pub proof fn lemma_last_sep_in(s: Seq<char>, both: bool)
    ensures
        -1 <= spec_last_sep_in(s, both) < s.len(),
        spec_last_sep_in(s, both) >= 0 ==> {
            let p = spec_last_sep_in(s, both);
            &&& (s[p] == '/' || (both && s[p] == '\\'))
            &&& forall|j: int| p < j < s.len() ==> !(s[j] == '/' || (both && s[j] == '\\'))
        },
        spec_last_sep_in(s, both) == -1 ==> forall|j: int|
            0 <= j < s.len() ==> !(s[j] == '/' || (both && s[j] == '\\')),
    decreases s.len(),
{
    if s.len() > 0 && !(s.last() == '/' || (both && s.last() == '\\')) {
        lemma_last_sep_in(s.drop_last(), both);
        assert(forall|j: int| 0 <= j < s.len() - 1 ==> s.drop_last()[j] == s[j]);
    }
}

/// Scan for the last occurrence of a separator; with `both` false only `'/'`
/// counts, with it true `'\\'` counts as well.
pub fn last_sep_in(s: &str, both: bool) -> (r: Option<usize>)
    ensures
        r is Some <==> spec_last_sep_in(s@, both) >= 0,
        r is Some ==> r->0 as int == spec_last_sep_in(s@, both),
{
    let len = s.unicode_len();
    let mut i: usize = len;
    proof {
        assert(s@.take(len as int) =~= s@);
    }
    while i > 0
        invariant
            len == s@.len(),
            i <= len,
            spec_last_sep_in(s@, both) == spec_last_sep_in(s@.take(i as int), both),
        decreases i,
    {
        let c = s.get_char(i - 1);
        proof {
            assert(s@.take(i as int).last() == s@[i - 1]);
        }
        if c == '/' || (both && c == '\\') {
            return Some(i - 1);
        }
        proof {
            assert(s@.take(i as int).drop_last() =~= s@.take(i - 1));
        }
        i -= 1;
    }
    proof {
        assert(s@.take(0) =~= Seq::<char>::empty());
    }
    None
}

/// The decimal digit characters `0` through `9`.
pub open spec fn digit_char(d: int) -> char {
    if d == 0 { '0' }
    else if d == 1 { '1' }
    else if d == 2 { '2' }
    else if d == 3 { '3' }
    else if d == 4 { '4' }
    else if d == 5 { '5' }
    else if d == 6 { '6' }
    else if d == 7 { '7' }
    else if d == 8 { '8' }
    else { '9' }
}

/// The decimal rendering of a natural number, most significant digit first.
pub open spec fn dec_str(n: nat) -> Seq<char>
    decreases n,
{
    if n < 10 {
        seq![digit_char(n as int)]
    } else {
        dec_str(n / 10).push(digit_char((n % 10) as int))
    }
}

/// Render a number in decimal.
pub fn u64_to_string(n: u64) -> (s: String)
    ensures
        s@ == dec_str(n as nat),
    decreases n,
{
    let digit: &str = match n % 10 {
        0 => "0",
        1 => "1",
        2 => "2",
        3 => "3",
        4 => "4",
        5 => "5",
        6 => "6",
        7 => "7",
        8 => "8",
        _ => "9",
    };
    proof {
        reveal_strlit("0");
        reveal_strlit("1");
        reveal_strlit("2");
        reveal_strlit("3");
        reveal_strlit("4");
        reveal_strlit("5");
        reveal_strlit("6");
        reveal_strlit("7");
        reveal_strlit("8");
        reveal_strlit("9");
    }
    if n < 10 {
        String::from_str(digit)
    } else {
        let mut s = u64_to_string(n / 10);
        s.append(digit);
        proof {
            assert(dec_str((n / 10) as nat) + digit@ =~= dec_str(n as nat));
        }
        s
    }
}

/// Is `c` one of the characters a selection prompt may contain around the
/// number itself?
pub open spec fn is_ws(c: char) -> bool {
    c == ' ' || c == '\t' || c == '\r' || c == '\n'
}

pub open spec fn is_digit(c: char) -> bool {
    c == '0' || c == '1' || c == '2' || c == '3' || c == '4' || c == '5' || c == '6' || c == '7'
        || c == '8' || c == '9'
}

pub open spec fn digit_val(c: char) -> int {
    if c == '0' { 0 }
    else if c == '1' { 1 }
    else if c == '2' { 2 }
    else if c == '3' { 3 }
    else if c == '4' { 4 }
    else if c == '5' { 5 }
    else if c == '6' { 6 }
    else if c == '7' { 7 }
    else if c == '8' { 8 }
    else { 9 }
}

/// `s` with leading whitespace removed.
pub open spec fn trim_front(s: Seq<char>) -> Seq<char>
    decreases s.len(),
{
    if s.len() > 0 && is_ws(s.first()) {
        trim_front(s.drop_first())
    } else {
        s
    }
}

/// `s` with trailing whitespace removed.
pub open spec fn trim_back(s: Seq<char>) -> Seq<char>
    decreases s.len(),
{
    if s.len() > 0 && is_ws(s.last()) {
        trim_back(s.drop_last())
    } else {
        s
    }
}

/// `s` with surrounding whitespace removed.
pub open spec fn trimmed(s: Seq<char>) -> Seq<char> {
    trim_back(trim_front(s))
}

pub open spec fn all_digits(s: Seq<char>) -> bool {
    forall|i: int| 0 <= i < s.len() ==> is_digit(s[i])
}

/// The value of a digit string, most significant digit first.
pub open spec fn digits_val(s: Seq<char>) -> nat
    decreases s.len(),
{
    if s.len() == 0 {
        0
    } else {
        (digits_val(s.drop_last()) * 10 + digit_val(s.last())) as nat
    }
}

/// Is a console line a well-formed menu selection: after stripping
/// surrounding whitespace, one or more decimal digits whose value fits in
/// `usize`?
pub open spec fn valid_selection(s: Seq<char>) -> bool {
    &&& trimmed(s).len() > 0
    &&& all_digits(trimmed(s))
    &&& digits_val(trimmed(s)) <= usize::MAX
}

/// Parse one console line as a menu selection.
///
/// Succeeds exactly on lines that hold a decimal number (surrounded by
/// whitespace at most) small enough for `usize`; everything else is an
/// input error, as an ill-formed selection is reported once and not retried.
pub fn parse_selection(s: &str) -> (r: Result<usize, VaultError>)
    ensures
        r is Ok <==> valid_selection(s@),
        r is Ok ==> r->Ok_0 as nat == digits_val(trimmed(s@)),
        r is Err ==> r->Err_0 == VaultError::Input,
{
    let len = s.unicode_len();
    // Find the first and last non-whitespace characters.
    let mut lo: usize = 0;
    while lo < len && is_ws_char(s.get_char(lo))
        invariant
            len == s@.len(),
            lo <= len,
            forall|j: int| 0 <= j < lo ==> is_ws(s@[j]),
        decreases len - lo,
    {
        lo += 1;
    }
    if lo == len {
        // all whitespace: trimmed is empty
        proof {
            lemma_trim_front_all_ws(s@);
        }
        return Err(VaultError::Input);
    }
    let mut hi: usize = len;
    while hi > lo && is_ws_char(s.get_char(hi - 1))
        invariant
            len == s@.len(),
            lo < len,
            lo <= hi <= len,
            !is_ws(s@[lo as int]),
            forall|j: int| hi <= j < len ==> is_ws(s@[j]),
        decreases hi,
    {
        hi -= 1;
    }
    proof {
        lemma_trimmed_bounds(s@, lo as int, hi as int);
    }
    // hi > lo, and s@[lo..hi] == trimmed(s@)
    let mut value: usize = 0;
    let mut i: usize = lo;
    while i < hi
        invariant
            len == s@.len(),
            lo <= i <= hi <= len,
            trimmed(s@) == s@.subrange(lo as int, hi as int),
            forall|j: int| lo <= j < i ==> is_digit(s@[j]),
            value as nat == digits_val(s@.subrange(lo as int, i as int)),
        decreases hi - i,
    {
        let c = s.get_char(i);
        let d = digit_of(c);
        match d {
            None => {
                proof {
                    assert(trimmed(s@)[i - lo] == s@[i as int]);
                }
                return Err(VaultError::Input);
            },
            Some(dv) => {
                let m = match value.checked_mul(10) {
                    Some(m) => m,
                    None => {
                        proof {
                            lemma_digits_val_monotone(trimmed(s@), i + 1 - lo);
                            assert(s@.subrange(lo as int, i + 1).drop_last() =~= s@.subrange(
                                lo as int,
                                i as int,
                            ));
                            assert(trimmed(s@).take(i + 1 - lo) =~= s@.subrange(lo as int, i + 1));
                        }
                        return Err(VaultError::Input);
                    },
                };
                let v = match m.checked_add(dv) {
                    Some(v) => v,
                    None => {
                        proof {
                            lemma_digits_val_monotone(trimmed(s@), i + 1 - lo);
                            assert(s@.subrange(lo as int, i + 1).drop_last() =~= s@.subrange(
                                lo as int,
                                i as int,
                            ));
                            assert(trimmed(s@).take(i + 1 - lo) =~= s@.subrange(lo as int, i + 1));
                        }
                        return Err(VaultError::Input);
                    },
                };
                proof {
                    assert(s@.subrange(lo as int, i + 1).drop_last() =~= s@.subrange(
                        lo as int,
                        i as int,
                    ));
                }
                value = v;
                i += 1;
            },
        }
    }
    proof {
        assert(s@.subrange(lo as int, hi as int) =~= trimmed(s@));
    }
    Ok(value)
}

/// Strip surrounding whitespace from a string slice.
pub fn trim_str(s: &str) -> (r: String)
    ensures
        r@ == trimmed(s@),
{
    let len = s.unicode_len();
    let mut lo: usize = 0;
    while lo < len && is_ws_char(s.get_char(lo))
        invariant
            len == s@.len(),
            lo <= len,
            forall|j: int| 0 <= j < lo ==> is_ws(s@[j]),
        decreases len - lo,
    {
        lo += 1;
    }
    if lo == len {
        proof {
            lemma_trim_front_all_ws(s@);
        }
        return String::new();
    }
    let mut hi: usize = len;
    while hi > lo && is_ws_char(s.get_char(hi - 1))
        invariant
            len == s@.len(),
            lo < len,
            lo <= hi <= len,
            !is_ws(s@[lo as int]),
            forall|j: int| hi <= j < len ==> is_ws(s@[j]),
        decreases hi,
    {
        hi -= 1;
    }
    proof {
        lemma_trimmed_bounds(s@, lo as int, hi as int);
    }
    String::from_str(s.substring_char(lo, hi))
}

/// Executable test for the whitespace characters of `is_ws`.
fn is_ws_char(c: char) -> (r: bool)
    ensures
        r == is_ws(c),
{
    c == ' ' || c == '\t' || c == '\r' || c == '\n'
}

/// The value of a digit character, or `None` for any other character.
fn digit_of(c: char) -> (r: Option<usize>)
    ensures
        r is Some <==> is_digit(c),
        r is Some ==> r->0 as int == digit_val(c),
        r is Some ==> r->0 < 10,
{
    match c {
        '0' => Some(0),
        '1' => Some(1),
        '2' => Some(2),
        '3' => Some(3),
        '4' => Some(4),
        '5' => Some(5),
        '6' => Some(6),
        '7' => Some(7),
        '8' => Some(8),
        '9' => Some(9),
        _ => None,
    }
}

/// A string of whitespace trims to the empty string.
proof fn lemma_trim_front_all_ws(s: Seq<char>)
    requires
        forall|j: int| 0 <= j < s.len() ==> is_ws(s[j]),
    ensures
        trim_front(s).len() == 0,
        trimmed(s).len() == 0,
    decreases s.len(),
{
    if s.len() > 0 {
        assert(forall|j: int| 0 <= j < s.drop_first().len() ==> is_ws(s.drop_first()[j]));
        lemma_trim_front_all_ws(s.drop_first());
    }
}

/// Where `lo` is the first non-whitespace position and `hi` is one past the
/// last, trimming yields exactly the middle part.
proof fn lemma_trimmed_bounds(s: Seq<char>, lo: int, hi: int)
    requires
        0 <= lo < hi <= s.len(),
        forall|j: int| 0 <= j < lo ==> is_ws(s[j]),
        !is_ws(s[lo]),
        !is_ws(s[hi - 1]),
        forall|j: int| hi <= j < s.len() ==> is_ws(s[j]),
    ensures
        trimmed(s) == s.subrange(lo, hi),
{
    lemma_trim_front_drops(s, lo);
    lemma_trim_back_drops(s.subrange(lo, s.len() as int), hi - lo);
}

proof fn lemma_trim_front_drops(s: Seq<char>, lo: int)
    requires
        0 <= lo < s.len(),
        forall|j: int| 0 <= j < lo ==> is_ws(s[j]),
        !is_ws(s[lo]),
    ensures
        trim_front(s) == s.subrange(lo, s.len() as int),
    decreases lo,
{
    if lo == 0 {
        assert(s.subrange(0, s.len() as int) =~= s);
    } else {
        assert(is_ws(s.first()));
        let t = s.drop_first();
        assert(t =~= s.subrange(1, s.len() as int));
        assert(forall|j: int| 0 <= j < lo - 1 ==> t[j] == s[j + 1] && is_ws(t[j]));
        lemma_trim_front_drops(t, lo - 1);
        assert(t.subrange(lo - 1, t.len() as int) =~= s.subrange(lo, s.len() as int));
    }
}

proof fn lemma_trim_back_drops(s: Seq<char>, hi: int)
    requires
        0 < hi <= s.len(),
        !is_ws(s[hi - 1]),
        forall|j: int| hi <= j < s.len() ==> is_ws(s[j]),
    ensures
        trim_back(s) == s.subrange(0, hi),
    decreases s.len(),
{
    if hi == s.len() {
        assert(s.subrange(0, s.len() as int) =~= s);
        assert(!is_ws(s.last()));
    } else {
        assert(is_ws(s.last()));
        let t = s.drop_last();
        assert(t =~= s.subrange(0, s.len() - 1));
        lemma_trim_back_drops(t, hi);
        assert(t.subrange(0, hi) =~= s.subrange(0, hi));
    }
}

/// A prefix of a digit string never exceeds its value.
proof fn lemma_digits_val_monotone(s: Seq<char>, n: int)
    requires
        0 < n <= s.len(),
    ensures
        digits_val(s.take(n)) <= digits_val(s),
    decreases s.len() - n,
{
    if n == s.len() {
        assert(s.take(n) =~= s);
    } else {
        lemma_digits_val_monotone(s, n + 1);
        assert(s.take(n + 1).drop_last() =~= s.take(n));
        assert(digits_val(s.take(n)) <= digits_val(s.take(n + 1)));
    }
}

/// The parts of `parts` joined with `sep` between neighbours.
pub open spec fn spec_join(parts: Seq<Seq<char>>, sep: Seq<char>) -> Seq<char>
    decreases parts.len(),
{
    if parts.len() == 0 {
        Seq::empty()
    } else if parts.len() == 1 {
        parts[0]
    } else {
        spec_join(parts.drop_last(), sep) + sep + parts.last()
    }
}

/// Join owned strings with a separator between neighbours.
pub fn join_with(parts: &Vec<String>, sep_str: &str) -> (r: String)
    ensures
        r@ == spec_join(parts@.map_values(|p: String| p@), sep_str@),
{
    let ghost views = parts@.map_values(|p: String| p@);
    let mut s = String::new();
    let mut i: usize = 0;
    while i < parts.len()
        invariant
            views == parts@.map_values(|p: String| p@),
            i <= parts.len(),
            s@ == spec_join(views.take(i as int), sep_str@),
        decreases parts.len() - i,
    {
        if i > 0 {
            s.append(sep_str);
        }
        s.append(parts[i].as_str());
        proof {
            assert(views.take(i + 1).drop_last() =~= views.take(i as int));
            assert(views.take(i + 1).last() == views[i as int]);
            if i == 0 {
                assert(s@ == views[0]);
                assert(spec_join(views.take(1), sep_str@) == views[0]);
            }
        }
        i += 1;
    }
    proof {
        assert(views.take(parts@.len() as int) =~= views);
    }
    s
}

} // verus!
