use vstd::prelude::*;

verus! {

/// A quote character: either delimiter a metadata name may use.
pub open spec fn is_quote(c: char) -> bool {
    c == '\'' || c == '"'
}

/// A character allowed inside a quoted name: `-`, `(`, `)`, a word character
/// (ASCII letter, digit or underscore), a space, or a quote.
pub open spec fn is_word_char(c: char) -> bool {
    ||| c == '-'
    ||| c == '('
    ||| c == ')'
    ||| 97 <= (c as u32) && (c as u32) <= 122
    ||| 65 <= (c as u32) && (c as u32) <= 90
    ||| 48 <= (c as u32) && (c as u32) <= 57
    ||| c == '_'
    ||| c == ' '
    ||| is_quote(c)
}

/// The first index at or after `j` whose character falls outside the name
/// alphabet (or the end of the string).
pub open spec fn run_end(s: Seq<char>, j: int) -> int
    decreases s.len() - j,
{
    if j < 0 || j >= s.len() {
        j
    } else if !is_word_char(s[j]) {
        j
    } else {
        run_end(s, j + 1)
    }
}

/// The largest index in `[lo, hi]` holding a quote, or -1: the greedy name
/// content backtracks to the last quote inside the run.
pub open spec fn best_quote(s: Seq<char>, lo: int, hi: int) -> int
    decreases hi - lo + 1,
{
    if hi < lo || hi < 0 || hi >= s.len() {
        -1
    } else if is_quote(s[hi]) {
        hi
    } else {
        best_quote(s, lo, hi - 1)
    }
}

/// Where a quoted name starting at `i` ends: the closing quote's index, or
/// -1 when no match starts here. The content must be non-empty and made of
/// name-alphabet characters.
pub open spec fn match_end(s: Seq<char>, i: int) -> int {
    best_quote(s, i + 2, run_end(s, i + 1) - 1)
}

/// The quoted names found from position `i` on: at each position, either a
/// name match starts (scanning resumes after its closing quote) or the scan
/// moves one character ahead.
pub open spec fn names_from(s: Seq<char>, i: int) -> Seq<Seq<char>>
    decreases s.len() - i,
{
    if i < 0 || i >= s.len() {
        Seq::empty()
    } else {
        let e = match_end(s, i);
        if is_quote(s[i]) && i + 2 <= e && e < s.len() {
            seq![s.subrange(i + 1, e)] + names_from(s, e + 1)
        } else {
            names_from(s, i + 1)
        }
    }
}

/// The class names embedded in model metadata: every quoted name token, in
/// order of appearance.
pub open spec fn names_of(s: Seq<char>) -> Seq<Seq<char>> {
    names_from(s, 0)
}

fn is_quote_exec(c: char) -> (r: bool)
    ensures
        r == is_quote(c),
{
    c == '\'' || c == '"'
}

fn is_word_char_exec(c: char) -> (r: bool)
    ensures
        r == is_word_char(c),
{
    let u = c as u32;
    c == '-' || c == '(' || c == ')' || (97 <= u && u <= 122) || (65 <= u && u <= 90) || (48 <= u
        && u <= 57) || c == '_' || c == ' ' || is_quote_exec(c)
}

fn run_end_exec(s: &str, n: usize, j: usize) -> (r: usize)
    requires
        n == s@.len(),
        j <= n,
    ensures
        r == run_end(s@, j as int),
        j <= r <= n,
    decreases n - j,
{
    if j >= n {
        j
    } else if !is_word_char_exec(s.get_char(j)) {
        j
    } else {
        run_end_exec(s, n, j + 1)
    }
}

/// Returns the largest quote index in `[lo, hi]`, or `None`.
fn best_quote_exec(s: &str, n: usize, lo: usize, hi: usize) -> (r: Option<usize>)
    requires
        n == s@.len(),
    ensures
        (r matches Some(e) ==> e as int == best_quote(s@, lo as int, hi as int)),
        (r is None ==> best_quote(s@, lo as int, hi as int) == -1),
        (r matches Some(e) ==> lo <= e <= hi && e < n),
    decreases hi - lo + 1,
{
    if hi < lo || hi >= n {
        return None;
    }
    if is_quote_exec(s.get_char(hi)) {
        Some(hi)
    } else {
        if hi == 0 {
            proof {
                assert(best_quote(s@, lo as int, -1) == -1);
            }
            return None;
        }
        best_quote_exec(s, n, lo, hi - 1)
    }
}

fn names_rec(s: &str, n: usize, i: usize) -> (r: Vec<String>)
    requires
        n == s@.len(),
    ensures
        r@.map_values(|t: String| t@) == names_from(s@, i as int),
    decreases n - i,
{
    if i >= n {
        let r: Vec<String> = Vec::new();
        proof {
            assert(r@.map_values(|t: String| t@) =~= names_from(s@, i as int));
        }
        return r;
    }
    let re = run_end_exec(s, n, i + 1);
    let found: Option<usize> = if re - i >= 3 {
        best_quote_exec(s, n, i + 2, re - 1)
    } else {
        proof {
            assert(best_quote(s@, i as int + 2, run_end(s@, i as int + 1) - 1) == -1);
        }
        None
    };
    if is_quote_exec(s.get_char(i)) && found.is_some() {
        let e = found.unwrap();
        let name = s.substring_char(i + 1, e).to_owned();
        let mut rest = names_rec(s, n, e + 1);
        rest.insert(0, name);
        proof {
            assert(rest@.map_values(|t: String| t@) =~= seq![s@.subrange(
                i as int + 1,
                e as int,
            )] + names_from(s@, e as int + 1));
        }
        rest
    } else {
        let r = names_rec(s, n, i + 1);
        proof {
            if found is Some {
                assert(names_from(s@, i as int) == names_from(s@, i as int + 1));
            }
        }
        r
    }
}

/// Extract the class names from a metadata string: every quoted token whose
/// content stays inside the name alphabet, in order.
pub fn parse_class_names(s: &str) -> (r: Vec<String>)
    ensures
        r@.map_values(|t: String| t@) == names_of(s@),
{
    let n = s.unicode_len();
    names_rec(s, n, 0)
}

/// An ASCII digit.
pub open spec fn is_digit(c: char) -> bool {
    48 <= (c as u32) && (c as u32) <= 57
}

fn is_digit_exec(c: char) -> (r: bool)
    ensures
        r == is_digit(c),
{
    let u = c as u32;
    48 <= u && u <= 57
}

pub open spec fn digit_run_end(s: Seq<char>, j: int) -> int
    decreases s.len() - j,
{
    if j < 0 || j >= s.len() {
        j
    } else if !is_digit(s[j]) {
        j
    } else {
        digit_run_end(s, j + 1)
    }
}

/// The numeric value of the digits `s[i..e]`.
pub open spec fn digits_value(s: Seq<char>, i: int, e: int) -> int
    decreases e - i,
{
    if e <= i {
        0
    } else {
        digits_value(s, i, e - 1) * 10 + ((s[e - 1] as u32) - 48)
    }
}

/// Whether the keypoint-shape pattern (digits, comma, space, digit) matches
/// at position `i`.
pub open spec fn kpt_match_at(s: Seq<char>, i: int) -> bool {
    let e = digit_run_end(s, i);
    &&& i < s.len()
    &&& is_digit(s[i])
    &&& e + 2 < s.len()
    &&& s[e] == ','
    &&& s[e + 1] == ' '
    &&& is_digit(s[e + 2])
}

/// The first number of the leftmost keypoint-shape match, scanning from `i`.
pub open spec fn first_kpt(s: Seq<char>, i: int) -> Option<int>
    decreases s.len() - i,
{
    if i < 0 || i >= s.len() {
        Option::None
    } else if kpt_match_at(s, i) {
        Option::Some(digits_value(s, i, digit_run_end(s, i)))
    } else {
        first_kpt(s, i + 1)
    }
}

fn digit_run_end_exec(s: &str, n: usize, j: usize) -> (r: usize)
    requires
        n == s@.len(),
        j <= n,
    ensures
        r == digit_run_end(s@, j as int),
        j <= r <= n,
        forall|m: int| j <= m < r ==> is_digit(s@[m]),
    decreases n - j,
{
    if j >= n {
        j
    } else if !is_digit_exec(s.get_char(j)) {
        j
    } else {
        digit_run_end_exec(s, n, j + 1)
    }
}

/// Digit accumulation can only grow as more digits are read.
proof fn lemma_digits_monotone(s: Seq<char>, i: int, k: int, e: int)
    requires
        i <= k <= e,
        forall|m: int| i <= m < e ==> is_digit(#[trigger] s[m]),
        digits_value(s, i, k) >= 0,
    ensures
        digits_value(s, i, e) >= digits_value(s, i, k),
        digits_value(s, i, e) >= 0,
    decreases e - k,
{
    if k < e {
        lemma_digits_monotone(s, i, k, e - 1);
        assert(is_digit(s[e - 1]));
        assert(digits_value(s, i, e - 1) * 10 >= digits_value(s, i, e - 1)) by (nonlinear_arith)
            requires
                digits_value(s, i, e - 1) >= 0,
        ;
    }
}

/// The value of the digits of the matching run, scanning from `i`, capped:
/// `None` when no match exists or the value does not fit `u32`.
fn first_kpt_exec(s: &str, n: usize, i: usize) -> (r: Option<usize>)
    requires
        n == s@.len(),
    ensures
        (match first_kpt(s@, i as int) {
            Option::None => r is None,
            Option::Some(v) => (v <= u32::MAX ==> (r matches Some(x) && x == v)) && (v > u32::MAX
                ==> r is None),
        }),
    decreases n - i,
{
    if i >= n {
        return None;
    }
    let matched: bool = if is_digit_exec(s.get_char(i)) {
        let e = digit_run_end_exec(s, n, i);
        n - e > 2 && s.get_char(e) == ',' && s.get_char(e + 1) == ' ' && is_digit_exec(
            s.get_char(e + 2),
        )
    } else {
        false
    };
    if matched {
        let e = digit_run_end_exec(s, n, i);
        proof {
            assert(kpt_match_at(s@, i as int));
        }
        // accumulate the value, stopping if it leaves u32 range
        let mut acc: u64 = 0;
        let mut k: usize = i;
        while k < e
            invariant
                n == s@.len(),
                i <= k <= e,
                e <= n,
                e == digit_run_end(s@, i as int),
                kpt_match_at(s@, i as int),
                acc == digits_value(s@, i as int, k as int),
                acc <= u32::MAX as u64,
                forall|m: int| i <= m < e ==> is_digit(s@[m]),
            decreases e - k,
        {
            proof {
                assert(is_digit(s@[k as int]));
            }
            let d = (s.get_char(k) as u32) - 48;
            let next: u64 = acc * 10 + (d as u64);
            if next > u32::MAX as u64 {
                proof {
                    assert(digits_value(s@, i as int, k as int + 1) == next);
                    lemma_digits_monotone(s@, i as int, k as int + 1, e as int);
                    assert(kpt_match_at(s@, i as int));
                    assert(first_kpt(s@, i as int) == Option::Some(
                        digits_value(s@, i as int, digit_run_end(s@, i as int)),
                    ));
                    assert(digits_value(s@, i as int, e as int) > u32::MAX);
                }
                return None;
            }
            acc = next;
            k = k + 1;
        }
        Some(acc as usize)
    } else {
        first_kpt_exec(s, n, i + 1)
    }
}

/// Parse the number of keypoints out of a `kpt_shape` metadata string: the
/// first number of the leftmost "digits, digits" pattern. `None` when the
/// pattern is absent (or the number does not fit `u32`).
pub fn parse_kpt_shape(s: &str) -> (r: Option<usize>)
    ensures
        (match first_kpt(s@, 0) {
            Option::None => r is None,
            Option::Some(v) => (v <= u32::MAX ==> (r matches Some(x) && x == v)) && (v > u32::MAX
                ==> r is None),
        }),
{
    let n = s.unicode_len();
    first_kpt_exec(s, n, 0)
}

} // verus!
