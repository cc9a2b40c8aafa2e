//! Heuristic line classifier: decides whether a line of text looks like
//! code. A line counts as code when it matches any strong code signal:
//! a declaration keyword at the start followed by whitespace, an arrow
//! token anywhere, a trailing opening brace, a leading closing brace, a
//! (possibly indented) `return`, or a control-flow keyword followed by an
//! opening parenthesis. It is a heuristic, not a parser.

use vstd::prelude::*;

use crate::text::{char_is_space, is_space, str_to_chars};

verus! {

/// The text begins with `kw` followed by a whitespace character.
pub open spec fn starts_kw_ws(s: Seq<char>, kw: Seq<char>) -> bool {
    s.len() > kw.len() && s.take(kw.len() as int) == kw && is_space(s[kw.len() as int])
}

/// The text contains `=>` somewhere.
pub open spec fn has_arrow(s: Seq<char>) -> bool {
    exists|i: int| 0 <= i && i + 1 < s.len() && #[trigger] s[i] == '=' && s[i + 1] == '>'
}

/// The last character apart from trailing whitespace is `{`.
pub open spec fn trailing_open_brace(s: Seq<char>) -> bool {
    exists|i: int|
        0 <= i < s.len() && s[i] == '{' && (forall|j: int| i < j < s.len() ==> is_space(s[j]))
}

/// The first character apart from leading whitespace is `}`.
pub open spec fn leading_close_brace(s: Seq<char>) -> bool {
    exists|i: int|
        0 <= i < s.len() && s[i] == '}' && (forall|j: int| 0 <= j < i ==> is_space(s[j]))
}

/// After optional leading whitespace the text has `kw` followed by a
/// whitespace character.
pub open spec fn indented_kw_ws(s: Seq<char>, kw: Seq<char>) -> bool {
    exists|i: int|
        0 <= i && i + kw.len() < s.len() && (forall|j: int| 0 <= j < i ==> is_space(s[j]))
            && #[trigger] s.subrange(i, i + kw.len()) == kw && is_space(s[i + kw.len()])
}

/// After optional leading whitespace the text has `kw`, then optional
/// whitespace, then `(`.
pub open spec fn control_kw_paren(s: Seq<char>, kw: Seq<char>) -> bool {
    exists|i: int, k: int|
        0 <= i && i + kw.len() <= k < s.len() && (forall|j: int| 0 <= j < i ==> is_space(s[j]))
            && #[trigger] s.subrange(i, i + kw.len()) == kw && (forall|m: int|
            i + kw.len() <= m < k ==> is_space(s[m])) && #[trigger] s[k] == '('
}

/// Whether any strong code signal fires: such a text counts as code.
pub open spec fn is_code_text(s: Seq<char>) -> bool {
    ||| starts_kw_ws(s, "import"@)
    ||| starts_kw_ws(s, "const"@)
    ||| starts_kw_ws(s, "let"@)
    ||| starts_kw_ws(s, "function"@)
    ||| starts_kw_ws(s, "class"@)
    ||| has_arrow(s)
    ||| trailing_open_brace(s)
    ||| leading_close_brace(s)
    ||| indented_kw_ws(s, "return"@)
    ||| control_kw_paren(s, "if"@)
    ||| control_kw_paren(s, "for"@)
    ||| control_kw_paren(s, "while"@)
}

/// Whether `pat` occurs in `v` starting at position `i`.
fn prefix_at(v: &Vec<char>, i: usize, pat: &Vec<char>) -> (r: bool)
    requires
        i <= v@.len(),
    ensures
        r == (i + pat@.len() <= v@.len() && v@.subrange(i as int, i as int + pat@.len() as int)
            == pat@),
{
    if pat.len() > v.len() - i {
        return false;
    }
    let mut m: usize = 0;
    while m < pat.len()
        invariant
            v@.len() <= usize::MAX,
            i + pat@.len() <= v@.len(),
            0 <= m <= pat@.len(),
            forall|t: int| 0 <= t < m ==> v@[i + t] == pat@[t],
        decreases pat@.len() - m,
    {
        if v[i + m] != pat[m] {
            proof {
                let sub = v@.subrange(i as int, i as int + pat@.len() as int);
                assert(sub[m as int] == v@[i + m]);
            }
            return false;
        }
        m = m + 1;
    }
    proof {
        assert(v@.subrange(i as int, i as int + pat@.len() as int) =~= pat@);
    }
    true
}

/// Index of the first character that is not whitespace, or the length.
fn first_non_space(v: &Vec<char>) -> (r: usize)
    ensures
        0 <= r <= v@.len(),
        forall|j: int| 0 <= j < r ==> is_space(v@[j]),
        r < v@.len() ==> !is_space(v@[r as int]),
{
    let mut f: usize = 0;
    while f < v.len() && char_is_space(v[f])
        invariant
            0 <= f <= v@.len(),
            forall|j: int| 0 <= j < f ==> is_space(v@[j]),
        decreases v@.len() - f,
    {
        f = f + 1;
    }
    f
}

fn check_starts_kw_ws(v: &Vec<char>, kw: &Vec<char>) -> (r: bool)
    ensures
        r == starts_kw_ws(v@, kw@),
{
    if kw.len() < v.len() && prefix_at(v, 0, kw) && char_is_space(v[kw.len()]) {
        proof {
            assert(v@.take(kw@.len() as int) =~= v@.subrange(0, kw@.len() as int));
        }
        true
    } else {
        proof {
            assert(v@.take(kw@.len() as int) =~= v@.subrange(0, kw@.len() as int));
        }
        false
    }
}

fn check_arrow(v: &Vec<char>) -> (r: bool)
    ensures
        r == has_arrow(v@),
{
    let n = v.len();
    let stop: usize = if n == 0 {
        0
    } else {
        n - 1
    };
    let mut i: usize = 0;
    while i < stop
        invariant
            n == v@.len(),
            stop == if n == 0 { 0int } else { n - 1 },
            0 <= i <= stop,
            forall|t: int| 0 <= t < i ==> !(#[trigger] v@[t] == '=' && v@[t + 1] == '>'),
        decreases stop - i,
    {
        if v[i] == '=' && v[i + 1] == '>' {
            return true;
        }
        i = i + 1;
    }
    proof {
        assert forall|t: int| !(0 <= t && t + 1 < v@.len() && #[trigger] v@[t] == '=' && v@[t + 1]
            == '>') by {
            if 0 <= t && t + 1 < v@.len() {
                assert(t < stop);
            }
        }
    }
    false
}

fn check_trailing_open_brace(v: &Vec<char>) -> (r: bool)
    ensures
        r == trailing_open_brace(v@),
{
    let mut e: usize = v.len();
    while e > 0 && char_is_space(v[e - 1])
        invariant
            0 <= e <= v@.len(),
            forall|j: int| e <= j < v@.len() ==> is_space(v@[j]),
        decreases e,
    {
        e = e - 1;
    }
    if e > 0 && v[e - 1] == '{' {
        assert(trailing_open_brace(v@)) by {
            assert(v@[e - 1] == '{' && (forall|j: int| e - 1 < j < v@.len() ==> is_space(v@[j])));
        }
        true
    } else {
        assert(!trailing_open_brace(v@)) by {
            assert forall|i: int|
                !(0 <= i < v@.len() && v@[i] == '{' && (forall|j: int|
                    i < j < v@.len() ==> is_space(v@[j]))) by {
                if 0 <= i < v@.len() && v@[i] == '{' {
                    if i >= e {
                        assert(is_space(v@[i]));
                        assert(false);
                    } else if i == e - 1 {
                    } else {
                        assert(e > 0 && !is_space(v@[e - 1]) ==> !(forall|j: int|
                            i < j < v@.len() ==> is_space(v@[j])));
                        if e > 0 {
                            assert(!is_space(v@[e - 1]));
                        }
                    }
                }
            }
        }
        false
    }
}

fn check_leading_close_brace(v: &Vec<char>) -> (r: bool)
    ensures
        r == leading_close_brace(v@),
{
    let f = first_non_space(v);
    if f < v.len() && v[f] == '}' {
        true
    } else {
        assert(!leading_close_brace(v@)) by {
            assert forall|i: int|
                !(0 <= i < v@.len() && v@[i] == '}' && (forall|j: int|
                    0 <= j < i ==> is_space(v@[j]))) by {
                if 0 <= i < v@.len() && v@[i] == '}' {
                    if i < f {
                        assert(is_space(v@[i]));
                        assert(false);
                    } else if i == f {
                    } else {
                        assert(f < v@.len() && !is_space(v@[f as int]));
                    }
                }
            }
        }
        false
    }
}

fn check_indented_kw_ws(v: &Vec<char>, kw: &Vec<char>) -> (r: bool)
    requires
        kw@.len() > 0,
        !is_space(kw@[0]),
    ensures
        r == indented_kw_ws(v@, kw@),
{
    let f = first_non_space(v);
    let rem = v.len() - f;
    if kw.len() < rem && prefix_at(v, f, kw) && char_is_space(v[f + kw.len()]) {
        assert(indented_kw_ws(v@, kw@)) by {
            let i = f as int;
            assert(0 <= i && i + kw@.len() < v@.len() && (forall|j: int|
                0 <= j < i ==> is_space(v@[j])) && v@.subrange(i, i + kw@.len()) == kw@
                && is_space(v@[i + kw@.len()]));
        }
        true
    } else {
        assert(!indented_kw_ws(v@, kw@)) by {
            assert forall|i: int|
                !(0 <= i && i + kw@.len() < v@.len() && (forall|j: int|
                    0 <= j < i ==> is_space(v@[j])) && #[trigger] v@.subrange(i, i + kw@.len())
                    == kw@ && is_space(v@[i + kw@.len()])) by {
                if 0 <= i && i + kw@.len() < v@.len() && v@.subrange(i, i + kw@.len()) == kw@ {
                    if i < f {
                        assert(v@.subrange(i, i + kw@.len())[0] == v@[i]);
                        assert(is_space(v@[i]));
                        assert(false);
                    } else if i > f {
                        assert(f < v@.len() && !is_space(v@[f as int]));
                    }
                }
            }
        }
        false
    }
}

fn check_control_kw_paren(v: &Vec<char>, kw: &Vec<char>) -> (r: bool)
    requires
        kw@.len() > 0,
        !is_space(kw@[0]),
        kw@[0] != '(',
    ensures
        r == control_kw_paren(v@, kw@),
{
    let f = first_non_space(v);
    let rem = v.len() - f;
    if kw.len() <= rem && prefix_at(v, f, kw) {
        let mut w: usize = f + kw.len();
        while w < v.len() && char_is_space(v[w])
            invariant
                f + kw@.len() <= w <= v@.len(),
                forall|m: int| f + kw@.len() <= m < w ==> is_space(v@[m]),
            decreases v@.len() - w,
        {
            w = w + 1;
        }
        if w < v.len() && v[w] == '(' {
            assert(control_kw_paren(v@, kw@)) by {
                let i = f as int;
                let k = w as int;
                assert(0 <= i && i + kw@.len() <= k < v@.len() && (forall|j: int|
                    0 <= j < i ==> is_space(v@[j])) && v@.subrange(i, i + kw@.len()) == kw@ && (
                forall|m: int| i + kw@.len() <= m < k ==> is_space(v@[m])) && v@[k] == '(');
            }
            true
        } else {
            assert(!control_kw_paren(v@, kw@)) by {
                assert forall|i: int, k: int|
                    !(0 <= i && i + kw@.len() <= k < v@.len() && (forall|j: int|
                        0 <= j < i ==> is_space(v@[j])) && #[trigger] v@.subrange(i, i + kw@.len())
                        == kw@ && (forall|m: int| i + kw@.len() <= m < k ==> is_space(v@[m]))
                        && #[trigger] v@[k] == '(') by {
                    if 0 <= i && i + kw@.len() <= k < v@.len() && v@.subrange(i, i + kw@.len())
                        == kw@ && v@[k] == '(' {
                        if i < f {
                            assert(v@.subrange(i, i + kw@.len())[0] == v@[i]);
                            assert(is_space(v@[i]));
                            assert(false);
                        } else if i > f {
                            assert(f < v@.len() && !is_space(v@[f as int]));
                        } else {
                            if k < w {
                                assert(is_space(v@[k]));
                                assert(false);
                            } else if k == w {
                            } else {
                                assert(w < v@.len() && !is_space(v@[w as int]));
                            }
                        }
                    }
                }
            }
            false
        }
    } else {
        assert(!control_kw_paren(v@, kw@)) by {
            assert forall|i: int, k: int|
                !(0 <= i && i + kw@.len() <= k < v@.len() && (forall|j: int|
                    0 <= j < i ==> is_space(v@[j])) && #[trigger] v@.subrange(i, i + kw@.len())
                    == kw@ && (forall|m: int| i + kw@.len() <= m < k ==> is_space(v@[m]))
                    && #[trigger] v@[k] == '(') by {
                if 0 <= i && i + kw@.len() <= k < v@.len() && v@.subrange(i, i + kw@.len()) == kw@ {
                    if i < f {
                        assert(v@.subrange(i, i + kw@.len())[0] == v@[i]);
                        assert(is_space(v@[i]));
                        assert(false);
                    } else if i > f {
                        assert(f < v@.len() && !is_space(v@[f as int]));
                    }
                }
            }
        }
        false
    }
}

/// The classifier over a character vector.
pub fn is_code_chars(v: &Vec<char>) -> (r: bool)
    ensures
        r == is_code_text(v@),
{
    proof {
        reveal_strlit("import");
        reveal_strlit("const");
        reveal_strlit("let");
        reveal_strlit("function");
        reveal_strlit("class");
        reveal_strlit("return");
        reveal_strlit("if");
        reveal_strlit("for");
        reveal_strlit("while");
    }
    let kw_import = str_to_chars("import");
    let kw_const = str_to_chars("const");
    let kw_let = str_to_chars("let");
    let kw_function = str_to_chars("function");
    let kw_class = str_to_chars("class");
    let kw_return = str_to_chars("return");
    let kw_if = str_to_chars("if");
    let kw_for = str_to_chars("for");
    let kw_while = str_to_chars("while");
    check_starts_kw_ws(v, &kw_import) || check_starts_kw_ws(v, &kw_const) || check_starts_kw_ws(
        v,
        &kw_let,
    ) || check_starts_kw_ws(v, &kw_function) || check_starts_kw_ws(v, &kw_class) || check_arrow(v)
        || check_trailing_open_brace(v) || check_leading_close_brace(v) || check_indented_kw_ws(
        v,
        &kw_return,
    ) || check_control_kw_paren(v, &kw_if) || check_control_kw_paren(v, &kw_for)
        || check_control_kw_paren(v, &kw_while)
}

/// Heuristic predicate: does this text look like code?
pub fn is_code_block(text: &str) -> (r: bool)
    ensures
        r == is_code_text(text@),
{
    let v = str_to_chars(text);
    is_code_chars(&v)
}

} // verus!
