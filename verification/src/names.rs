use vstd::prelude::*;
use crate::text::{chars_of, chars_eq_str, owned, push_str};

verus! {
// ---------------------------------------------------------------------------
// Edit distance

pub open spec fn min_nat(a: nat, b: nat) -> nat {
    if a <= b { a } else { b }
}

/// The Levenshtein distance between the first `i` characters of `a` and the
/// first `j` characters of `b`: the fewest single-character deletions,
/// insertions and substitutions that turn one into the other.
pub open spec fn edit_distance_prefix(a: Seq<char>, b: Seq<char>, i: nat, j: nat) -> nat
    decreases i + j,
{
    if i == 0 {
        j
    } else if j == 0 {
        i
    } else {
        let cost: nat = if a[i - 1] == b[j - 1] { 0 } else { 1 };
        min_nat(
            min_nat(edit_distance_prefix(a, b, (i - 1) as nat, j) + 1, edit_distance_prefix(a, b, i, (j - 1) as nat) + 1),
            edit_distance_prefix(a, b, (i - 1) as nat, (j - 1) as nat) + cost,
        )
    }
}

/// The Levenshtein distance between `a` and `b`.
pub open spec fn edit_distance(a: Seq<char>, b: Seq<char>) -> nat {
    edit_distance_prefix(a, b, a.len(), b.len())
}

proof fn lemma_edit_distance_bound(a: Seq<char>, b: Seq<char>, i: nat, j: nat)
    ensures
        edit_distance_prefix(a, b, i, j) <= if i <= j { j } else { i },
    decreases i + j,
{
    if i > 0 && j > 0 {
        lemma_edit_distance_bound(a, b, (i - 1) as nat, (j - 1) as nat);
    }
}

/// The edit distance is symmetric.
pub proof fn law_edit_distance_symmetric(a: Seq<char>, b: Seq<char>)
    ensures
        edit_distance(a, b) == edit_distance(b, a),
{
    lemma_edit_distance_prefix_symmetric(a, b, a.len(), b.len());
}

proof fn lemma_edit_distance_prefix_symmetric(a: Seq<char>, b: Seq<char>, i: nat, j: nat)
    ensures
        edit_distance_prefix(a, b, i, j) == edit_distance_prefix(b, a, j, i),
    decreases i + j,
{
    if i > 0 && j > 0 {
        lemma_edit_distance_prefix_symmetric(a, b, (i - 1) as nat, j);
        lemma_edit_distance_prefix_symmetric(a, b, i, (j - 1) as nat);
        lemma_edit_distance_prefix_symmetric(a, b, (i - 1) as nat, (j - 1) as nat);
    }
}

/// A string is at distance 0 from itself.
pub proof fn law_edit_distance_zero_to_itself(a: Seq<char>)
    ensures
        edit_distance(a, a) == 0,
{
    lemma_edit_distance_diagonal(a, a.len());
}

proof fn lemma_edit_distance_diagonal(a: Seq<char>, i: nat)
    ensures
        edit_distance_prefix(a, a, i, i) == 0,
    decreases i,
{
    if i > 0 {
        lemma_edit_distance_diagonal(a, (i - 1) as nat);
    }
}

/// The edit distance is at most the length of the longer string.
pub proof fn law_edit_distance_at_most_longer(a: Seq<char>, b: Seq<char>)
    ensures
        edit_distance(a, b) <= if a.len() <= b.len() { b.len() } else { a.len() },
{
    lemma_edit_distance_bound(a, b, a.len(), b.len());
}

/// A suggested name is always within three edits of the undefined one.
pub proof fn law_suggestion_is_close(name: Seq<char>, candidates: Seq<Seq<char>>)
    ensures
        closest_name(name, candidates) is Some ==> edit_distance(name, closest_name(name, candidates)->0) <= 3,
{
    lemma_closest_is_near(name, candidates, candidates.len() as int);
}

/// The Levenshtein distance between two strings, counted in characters.
pub fn levenshtein_distance(s1: &str, s2: &str) -> (r: usize)
    requires
        s1@.len() < usize::MAX,
        s2@.len() < usize::MAX,
    ensures
        r == edit_distance(s1@, s2@),
{
    let a = chars_of(s1);
    let b = chars_of(s2);
    let len1 = a.len();
    let len2 = b.len();
    if len1 == 0 {
        return len2;
    }
    if len2 == 0 {
        return len1;
    }
    // prev[j] is the distance between a[..i] and b[..j]
    let mut prev: Vec<usize> = Vec::new();
    let mut j: usize = 0;
    while j <= len2
        invariant
            j <= len2 + 1,
            len2 == b@.len(),
            len2 < usize::MAX,
            prev@.len() == j,
            forall|k: int| 0 <= k < j ==> #[trigger] prev@[k] == edit_distance_prefix(a@, b@, 0, k as nat),
        decreases len2 + 1 - j,
    {
        prev.push(j);
        j = j + 1;
    }
    let mut i: usize = 0;
    while i < len1
        invariant
            i <= len1,
            len1 == a@.len(),
            len2 == b@.len(),
            len1 < usize::MAX,
            len2 < usize::MAX,
            len2 > 0,
            prev@.len() == len2 + 1,
            forall|k: int| 0 <= k <= len2 ==> #[trigger] prev@[k] == edit_distance_prefix(a@, b@, i as nat, k as nat),
        decreases len1 - i,
    {
        let mut cur: Vec<usize> = Vec::new();
        cur.push(i + 1);
        let mut j: usize = 0;
        while j < len2
            invariant
                i < len1,
                j <= len2,
                len1 == a@.len(),
                len2 == b@.len(),
                len1 < usize::MAX,
                len2 < usize::MAX,
                prev@.len() == len2 + 1,
                forall|k: int| 0 <= k <= len2 ==> #[trigger] prev@[k] == edit_distance_prefix(a@, b@, i as nat, k as nat),
                cur@.len() == j + 1,
                forall|k: int| 0 <= k <= j ==> #[trigger] cur@[k] == edit_distance_prefix(a@, b@, (i + 1) as nat, k as nat),
            decreases len2 - j,
        {
            proof {
                lemma_edit_distance_bound(a@, b@, i as nat, (j + 1) as nat);
                lemma_edit_distance_bound(a@, b@, (i + 1) as nat, j as nat);
                lemma_edit_distance_bound(a@, b@, i as nat, j as nat);
            }
            let cost: usize = if a[i] == b[j] { 0 } else { 1 };
            let deletion = prev[j + 1] + 1;
            let insertion = cur[j] + 1;
            let substitution = prev[j] + cost;
            let best = if deletion <= insertion { deletion } else { insertion };
            let best = if best <= substitution { best } else { substitution };
            cur.push(best);
            j = j + 1;
        }
        prev = cur;
        i = i + 1;
    }
    prev[len2]
}

// ---------------------------------------------------------------------------
// Suggestions for undefined names

/// The message for an undefined name when `best` is the closest known name.
pub open spec fn suggestion_text(best: Option<Seq<char>>) -> Seq<char> {
    match best {
        Some(name) => "Did you mean '"@ + name + "'? Check your spelling or define the variable before using it."@,
        None => "Make sure the variable is defined before using it. Use 'defvar' to define global variables, or check if it's in scope."@,
    }
}

/// Among the first `n` candidates, the first one at the smallest edit
/// distance from `name`, when that distance is at most 3.
pub open spec fn closest_upto(name: Seq<char>, candidates: Seq<Seq<char>>, n: int) -> Option<Seq<char>>
    decreases n,
{
    if n <= 0 {
        None
    } else {
        let d = edit_distance(name, candidates[n - 1]);
        match closest_upto(name, candidates, n - 1) {
            Some(best) => if d < edit_distance(name, best) { Some(candidates[n - 1]) } else { Some(best) },
            None => if d <= 3 { Some(candidates[n - 1]) } else { None },
        }
    }
}

pub open spec fn closest_name(name: Seq<char>, candidates: Seq<Seq<char>>) -> Option<Seq<char>> {
    closest_upto(name, candidates, candidates.len() as int)
}

proof fn lemma_closest_is_near(name: Seq<char>, candidates: Seq<Seq<char>>, n: int)
    ensures
        closest_upto(name, candidates, n) is Some ==> edit_distance(name, closest_upto(name, candidates, n)->0) <= 3,
    decreases n,
{
    if n > 0 {
        lemma_closest_is_near(name, candidates, n - 1);
    }
}

/// A hint for an undefined name: the closest of the known names (within
/// three edits, the first of equally close ones), or general advice.
pub fn suggest_similar_name(undefined_name: &str, known_names: &Vec<String>) -> (r: String)
    requires
        undefined_name@.len() < usize::MAX,
        forall|k: int| 0 <= k < known_names@.len() ==> #[trigger] known_names@[k]@.len() < usize::MAX,
    ensures
        r@ == suggestion_text(closest_name(undefined_name@, Seq::new(known_names@.len(), |k: int| known_names@[k]@))),
{
    let ghost names = Seq::new(known_names@.len(), |k: int| known_names@[k]@);
    let mut best: Option<usize> = None;
    let mut best_distance: usize = usize::MAX;
    let mut k: usize = 0;
    while k < known_names.len()
        invariant
            k <= known_names@.len(),
            names == Seq::new(known_names@.len(), |k: int| known_names@[k]@),
            undefined_name@.len() < usize::MAX,
            forall|k: int| 0 <= k < known_names@.len() ==> #[trigger] known_names@[k]@.len() < usize::MAX,
            match best {
                Some(b) => b < k && closest_upto(undefined_name@, names, k as int) == Some(names[b as int])
                    && best_distance == edit_distance(undefined_name@, names[b as int]) && best_distance <= 3,
                None => closest_upto(undefined_name@, names, k as int) is None && best_distance == usize::MAX,
            },
        decreases known_names@.len() - k,
    {
        let d = levenshtein_distance(undefined_name, known_names[k].as_str());
        if d < best_distance && d <= 3 {
            best_distance = d;
            best = Some(k);
        }
        k = k + 1;
    }
    match best {
        Some(b) => {
            let mut msg = owned("Did you mean '");
            push_str(&mut msg, known_names[b].as_str());
            push_str(&mut msg, "'? Check your spelling or define the variable before using it.");
            msg
        },
        None => owned(
            "Make sure the variable is defined before using it. Use 'defvar' to define global variables, or check if it's in scope.",
        ),
    }
}

// ---------------------------------------------------------------------------
// Builtin functions and module names

/// The names of the functions the machine provides.
pub open spec fn builtin_names() -> Seq<Seq<char>> {
    seq![
        "+"@, "-"@, "*"@, "/"@, "%"@, "neg"@,
        "<="@, "<"@, ">"@, ">="@, "=="@, "!="@,
        "cons"@, "car"@, "cdr"@, "list?"@, "append"@, "list-ref"@, "list-length"@, "null?"@, "list"@,
        "integer?"@, "boolean?"@, "function?"@, "closure?"@, "procedure?"@, "number?"@,
        "string?"@, "symbol?"@, "symbol->string"@, "string->symbol"@,
        "string-length"@, "substring"@, "string-append"@, "string->list"@,
        "list->string"@, "char-code"@, "number->string"@, "string->number"@,
        "string-split"@, "string-join"@, "string-trim"@, "string-replace"@,
        "string-starts-with?"@, "string-ends-with?"@, "string-contains?"@,
        "string-upcase"@, "string-downcase"@,
        "read-file"@, "write-file"@, "file-exists?"@, "write-binary-file"@, "load"@, "require"@,
        "hashmap?"@, "hashmap-get"@, "hashmap-set"@, "hashmap-keys"@,
        "hashmap-values"@, "hashmap-contains-key?"@, "hash-map"@,
        "vector?"@, "vector-ref"@, "vector-set"@, "vector-push"@, "vector-pop"@,
        "vector-length"@, "vector"@,
        "list->vector"@, "vector->list"@,
        "eval"@,
        "function-arity"@, "function-params"@, "closure-captured"@, "function-name"@,
        "get-args"@, "print"@
    ]
}

/// Whether a name is one of the functions the machine provides.
pub fn is_builtin_function(name: &str) -> (r: bool)
    ensures
        r == builtin_names().contains(name@),
{
    let table: [&str; 77] = [
        "+", "-", "*", "/", "%", "neg",
        "<=", "<", ">", ">=", "==", "!=",
        "cons", "car", "cdr", "list?", "append", "list-ref", "list-length", "null?", "list",
        "integer?", "boolean?", "function?", "closure?", "procedure?", "number?",
        "string?", "symbol?", "symbol->string", "string->symbol",
        "string-length", "substring", "string-append", "string->list",
        "list->string", "char-code", "number->string", "string->number",
        "string-split", "string-join", "string-trim", "string-replace",
        "string-starts-with?", "string-ends-with?", "string-contains?",
        "string-upcase", "string-downcase",
        "read-file", "write-file", "file-exists?", "write-binary-file", "load", "require",
        "hashmap?", "hashmap-get", "hashmap-set", "hashmap-keys",
        "hashmap-values", "hashmap-contains-key?", "hash-map",
        "vector?", "vector-ref", "vector-set", "vector-push", "vector-pop",
        "vector-length", "vector",
        "list->vector", "vector->list",
        "eval",
        "function-arity", "function-params", "closure-captured", "function-name",
        "get-args", "print",
    ];
    let ghost names = builtin_names();
    assert(table@.len() == names.len());
    assert forall|k: int| 0 <= k < names.len() implies #[trigger] table@[k]@ == names[k] by {}
    let v = chars_of(name);
    let mut k: usize = 0;
    while k < 77
        invariant
            k <= 77,
            v@ == name@,
            names == builtin_names(),
            table@.len() == names.len(),
            forall|j: int| 0 <= j < names.len() ==> #[trigger] table@[j]@ == names[j],
            forall|j: int| 0 <= j < k ==> #[trigger] names[j] != v@,
        decreases 77 - k,
    {
        if chars_eq_str(&v, table[k]) {
            assert(names[k as int] == name@);
            return true;
        }
        k = k + 1;
    }
    false
}

/// A name inside a module: `module/name`, or the name itself outside any.
pub fn qualify_name(module: Option<&str>, name: &str) -> (r: String)
    ensures
        r@ == match module {
            Some(m) => m@ + "/"@ + name@,
            None => name@,
        },
{
    match module {
        Some(m) => {
            let mut s = owned(m);
            push_str(&mut s, "/");
            push_str(&mut s, name);
            s
        },
        None => owned(name),
    }
}
} // verus!
