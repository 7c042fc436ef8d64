use vstd::prelude::*;
use crate::text::chars_of;

verus! {
/// Whether a character has the Unicode White_Space property (the white
/// space that `str::trim` removes).
pub open spec fn is_white_space(c: char) -> bool {
    let u = c as u32;
    ||| 0x9 <= u <= 0xD
    ||| u == 0x20
    ||| u == 0x85
    ||| u == 0xA0
    ||| u == 0x1680
    ||| 0x2000 <= u <= 0x200A
    ||| u == 0x2028
    ||| u == 0x2029
    ||| u == 0x202F
    ||| u == 0x205F
    ||| u == 0x3000
}

/// The parenthesis depth after the first `n` characters, and whether they
/// end inside a string literal: a double quote opens or closes a string,
/// and parentheses inside strings do not count.
pub open spec fn scan_upto(s: Seq<char>, n: int) -> (int, bool)
    decreases n,
{
    if n <= 0 {
        (0, false)
    } else {
        let (depth, in_string) = scan_upto(s, n - 1);
        let c = s[n - 1];
        if c == '"' {
            (depth, !in_string)
        } else if c == '(' && !in_string {
            (depth + 1, in_string)
        } else if c == ')' && !in_string {
            (depth - 1, in_string)
        } else {
            (depth, in_string)
        }
    }
}

/// Whether an input buffer holds a complete expression: its parentheses
/// balance, and it holds more than white space.
pub open spec fn input_complete(s: Seq<char>) -> bool {
    &&& scan_upto(s, s.len() as int).0 == 0
    &&& exists|k: int| 0 <= k < s.len() && !is_white_space(#[trigger] s[k])
}

proof fn lemma_scan_bound(s: Seq<char>, n: int)
    requires
        0 <= n,
    ensures
        -n <= scan_upto(s, n).0 <= n,
    decreases n,
{
    if n > 0 {
        lemma_scan_bound(s, n - 1);
    }
}

pub(crate) fn white_space(c: char) -> (r: bool)
    ensures
        r == is_white_space(c),
{
    let u = c as u32;
    (0x9 <= u && u <= 0xD) || u == 0x20 || u == 0x85 || u == 0xA0 || u == 0x1680 || (0x2000 <= u && u <= 0x200A)
        || u == 0x2028 || u == 0x2029 || u == 0x202F || u == 0x205F || u == 0x3000
}

/// Whether the input typed so far holds a complete expression, so that it
/// can be evaluated: its parentheses (outside strings) balance, and it is
/// not blank.
pub fn is_complete_input(input: &str) -> (r: bool)
    requires
        input@.len() <= i64::MAX,
    ensures
        r == input_complete(input@),
{
    let v = chars_of(input);
    let n = v.len();
    let mut depth: i64 = 0;
    let mut in_string = false;
    let mut blank = true;
    let mut k: usize = 0;
    while k < n
        invariant
            n == v@.len(),
            v@ == input@,
            n <= i64::MAX,
            k <= n,
            (depth as int, in_string) == scan_upto(v@, k as int),
            blank == (forall|j: int| 0 <= j < k ==> is_white_space(#[trigger] v@[j])),
        decreases n - k,
    {
        proof {
            lemma_scan_bound(v@, k as int);
        }
        let c = v[k];
        if c == '"' {
            in_string = !in_string;
        } else if c == '(' && !in_string {
            depth = depth + 1;
        } else if c == ')' && !in_string {
            depth = depth - 1;
        }
        if !white_space(c) {
            blank = false;
        }
        k = k + 1;
    }
    depth == 0 && !blank
}
} // verus!
