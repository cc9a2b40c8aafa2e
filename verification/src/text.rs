//! Character-level text utilities shared by the chunking pipeline:
//! whitespace trimming, splitting a document into lines, joining lines
//! back together, and conversions between `String` and `Vec<char>`.

use vstd::prelude::*;

verus! {

/// ASCII whitespace, as the chunker understands it.
pub open spec fn is_space(c: char) -> bool {
    c == ' ' || c == '\t' || c == '\n' || c == '\r' || c == '\u{b}' || c == '\u{c}'
}

pub fn char_is_space(c: char) -> (r: bool)
    ensures
        r == is_space(c),
{
    c == ' ' || c == '\t' || c == '\n' || c == '\r' || c == '\u{b}' || c == '\u{c}'
}

/// The views of a sequence of character vectors.
pub open spec fn views(vv: Seq<Vec<char>>) -> Seq<Seq<char>> {
    Seq::new(vv.len(), |i: int| vv[i]@)
}

/// The views of a sequence of strings.
pub open spec fn string_views(ss: Seq<String>) -> Seq<Seq<char>> {
    Seq::new(ss.len(), |i: int| ss[i]@)
}

pub open spec fn trim_start_spec(s: Seq<char>) -> Seq<char>
    decreases s.len(),
{
    if s.len() > 0 && is_space(s[0]) {
        trim_start_spec(s.drop_first())
    } else {
        s
    }
}

pub open spec fn trim_end_spec(s: Seq<char>) -> Seq<char>
    decreases s.len(),
{
    if s.len() > 0 && is_space(s[s.len() - 1]) {
        trim_end_spec(s.drop_last())
    } else {
        s
    }
}

/// What remains of `s` after removing leading and trailing whitespace.
pub open spec fn trim_spec(s: Seq<char>) -> Seq<char> {
    trim_end_spec(trim_start_spec(s))
}

/// `s` carries no whitespace at either end.
pub open spec fn trimmed(s: Seq<char>) -> bool {
    s.len() > 0 ==> !is_space(s[0]) && !is_space(s[s.len() - 1])
}

/// Trimming the first `k` characters away, when they are all whitespace and
/// the next one is not, leaves exactly the suffix from `k`.
pub proof fn lemma_trim_start_at(s: Seq<char>, k: int)
    requires
        0 <= k <= s.len(),
        forall|i: int| 0 <= i < k ==> is_space(s[i]),
        k == s.len() || !is_space(s[k]),
    ensures
        trim_start_spec(s) == s.subrange(k, s.len() as int),
    decreases k,
{
    if k == 0 {
        if s.len() > 0 && is_space(s[0]) {
            assert(false);
        }
        assert(s.subrange(0, s.len() as int) =~= s);
    } else {
        let t = s.drop_first();
        assert(forall|i: int| 0 <= i < k - 1 ==> is_space(#[trigger] t[i]));
        lemma_trim_start_at(t, k - 1);
        assert(t.subrange(k - 1, t.len() as int) =~= s.subrange(k, s.len() as int));
    }
}

/// Trimming trailing whitespace back to position `k` (exclusive), when the
/// character before `k` is not whitespace, leaves exactly the prefix.
pub proof fn lemma_trim_end_at(s: Seq<char>, k: int)
    requires
        0 <= k <= s.len(),
        forall|i: int| k <= i < s.len() ==> is_space(s[i]),
        k == 0 || !is_space(s[k - 1]),
    ensures
        trim_end_spec(s) == s.subrange(0, k),
    decreases s.len() - k,
{
    if k == s.len() {
        if s.len() > 0 && is_space(s[s.len() - 1]) {
            assert(false);
        }
        assert(s.subrange(0, s.len() as int) =~= s);
    } else {
        let t = s.drop_last();
        assert(forall|i: int| k <= i < t.len() ==> is_space(#[trigger] t[i]));
        lemma_trim_end_at(t, k);
        assert(t.subrange(0, k) =~= s.subrange(0, k));
    }
}

/// The result of trimming is trimmed and no longer than the input; what
/// was dropped was whitespace.
pub proof fn lemma_trim_start_props(s: Seq<char>)
    ensures
        trim_start_spec(s).len() <= s.len(),
        trim_start_spec(s).len() > 0 ==> !is_space(trim_start_spec(s)[0]),
        trim_start_spec(s) == s.subrange(
            s.len() - trim_start_spec(s).len(),
            s.len() as int,
        ),
        forall|i: int| 0 <= i < s.len() - trim_start_spec(s).len() ==> is_space(s[i]),
    decreases s.len(),
{
    if s.len() > 0 && is_space(s[0]) {
        let t = s.drop_first();
        lemma_trim_start_props(t);
        assert(t.subrange(t.len() - trim_start_spec(t).len(), t.len() as int) =~= s.subrange(
            s.len() - trim_start_spec(s).len(),
            s.len() as int,
        ));
        assert forall|i: int| 0 <= i < s.len() - trim_start_spec(s).len() implies is_space(
            s[i],
        ) by {
            if i > 0 {
                assert(is_space(t[i - 1]));
            }
        }
    } else {
        assert(s.subrange(0, s.len() as int) =~= s);
    }
}

pub proof fn lemma_trim_end_props(s: Seq<char>)
    ensures
        trim_end_spec(s).len() <= s.len(),
        trim_end_spec(s).len() > 0 ==> !is_space(trim_end_spec(s)[trim_end_spec(s).len() - 1]),
        trim_end_spec(s) == s.subrange(0, trim_end_spec(s).len() as int),
        forall|i: int| trim_end_spec(s).len() <= i < s.len() ==> is_space(s[i]),
    decreases s.len(),
{
    if s.len() > 0 && is_space(s[s.len() - 1]) {
        let t = s.drop_last();
        lemma_trim_end_props(t);
        assert(t.subrange(0, trim_end_spec(t).len() as int) =~= s.subrange(
            0,
            trim_end_spec(s).len() as int,
        ));
        assert forall|i: int| trim_end_spec(s).len() <= i < s.len() implies is_space(s[i]) by {
            if i < s.len() - 1 {
                assert(is_space(t[i]));
            }
        }
    } else {
        assert(s.subrange(0, s.len() as int) =~= s);
    }
}

pub proof fn lemma_trim_props(s: Seq<char>)
    ensures
        trim_spec(s).len() <= s.len(),
        trimmed(trim_spec(s)),
{
    lemma_trim_start_props(s);
    let t = trim_start_spec(s);
    lemma_trim_end_props(t);
    if trim_end_spec(t).len() > 0 {
        assert(trim_end_spec(t)[0] == t[0]);
    }
}

/// Trimming an already trimmed sequence changes nothing.
pub proof fn lemma_trim_of_trimmed(s: Seq<char>)
    requires
        trimmed(s),
    ensures
        trim_spec(s) == s,
{
    assert(trim_start_spec(s) == s);
    assert(trim_end_spec(s) == s);
}

/// Extra whitespace in front does not change the trimmed value.
pub proof fn lemma_trim_drop_space_front(s: Seq<char>)
    requires
        s.len() > 0,
        is_space(s[0]),
    ensures
        trim_spec(s) == trim_spec(s.drop_first()),
{
    assert(trim_start_spec(s) == trim_start_spec(s.drop_first()));
}

/// Removes leading and trailing whitespace.
pub fn trim_chars(v: &Vec<char>) -> (r: Vec<char>)
    ensures
        r@ == trim_spec(v@),
{
    let n = v.len();
    let mut lo: usize = 0;
    while lo < n && char_is_space(v[lo])
        invariant
            n == v.len(),
            0 <= lo <= n,
            forall|i: int| 0 <= i < lo ==> is_space(v@[i]),
        decreases n - lo,
    {
        lo = lo + 1;
    }
    let mut hi: usize = n;
    while hi > lo && char_is_space(v[hi - 1])
        invariant
            n == v.len(),
            lo <= hi <= n,
            forall|i: int| hi <= i < n ==> is_space(v@[i]),
            lo == n || !is_space(v@[lo as int]),
        decreases hi,
    {
        hi = hi - 1;
    }
    let mut r: Vec<char> = Vec::new();
    let mut i: usize = lo;
    while i < hi
        invariant
            n == v.len(),
            lo <= i <= hi <= n,
            r@ == v@.subrange(lo as int, i as int),
        decreases hi - i,
    {
        r.push(v[i]);
        assert(r@ =~= v@.subrange(lo as int, i + 1));
        i = i + 1;
    }
    proof {
        lemma_trim_start_at(v@, lo as int);
        let t = trim_start_spec(v@);
        assert(forall|i: int| hi - lo <= i < t.len() ==> is_space(#[trigger] t[i]));
        lemma_trim_end_at(t, hi - lo);
        assert(t.subrange(0, hi - lo) =~= v@.subrange(lo as int, hi as int));
    }
    r
}

/// Lines joined by single newline characters.
pub open spec fn join_lines(ls: Seq<Seq<char>>) -> Seq<char>
    decreases ls.len(),
{
    if ls.len() == 0 {
        Seq::empty()
    } else if ls.len() == 1 {
        ls[0]
    } else {
        ls[0] + seq!['\n'] + join_lines(ls.drop_first())
    }
}

/// How the assembler's buffer grows: a separating newline is added only
/// when the buffer is not empty.
pub open spec fn glue(b: Seq<char>, line: Seq<char>) -> Seq<char> {
    if b.len() == 0 {
        line
    } else {
        b + seq!['\n'] + line
    }
}

/// The assembler's buffer after absorbing `ls` in order.
pub open spec fn buffer_of(ls: Seq<Seq<char>>) -> Seq<char>
    decreases ls.len(),
{
    if ls.len() == 0 {
        Seq::empty()
    } else {
        glue(buffer_of(ls.drop_last()), ls.last())
    }
}

/// A run of `k` newline characters.
pub open spec fn newlines(k: nat) -> Seq<char> {
    Seq::new(k, |i: int| '\n')
}

pub proof fn lemma_join_snoc(ls: Seq<Seq<char>>, x: Seq<char>)
    requires
        ls.len() > 0,
    ensures
        join_lines(ls.push(x)) == join_lines(ls) + seq!['\n'] + x,
    decreases ls.len(),
{
    let p = ls.push(x);
    if ls.len() == 1 {
        assert(p.drop_first() =~= seq![x]);
        assert(join_lines(p.drop_first()) == x);
        assert(join_lines(p) == p[0] + seq!['\n'] + x);
        assert(p[0] == ls[0]);
        assert(join_lines(ls) == ls[0]);
    } else {
        assert(p.drop_first() =~= ls.drop_first().push(x));
        lemma_join_snoc(ls.drop_first(), x);
        assert(join_lines(p) == p[0] + seq!['\n'] + (join_lines(ls.drop_first()) + seq!['\n']
            + x));
        assert(p[0] == ls[0]);
        assert(ls[0] + seq!['\n'] + (join_lines(ls.drop_first()) + seq!['\n'] + x) =~= (ls[0]
            + seq!['\n'] + join_lines(ls.drop_first())) + seq!['\n'] + x);
    }
}

/// A buffer that is empty can only have absorbed empty lines, and the join
/// of the same lines is then pure newlines; otherwise the join is the
/// buffer with some leading newlines. Stated as: the join always equals
/// some run of newlines followed by the buffer.
pub proof fn lemma_join_vs_buffer(ls: Seq<Seq<char>>)
    ensures
        exists|k: nat| join_lines(ls) == newlines(k) + buffer_of(ls),
    decreases ls.len(),
{
    if ls.len() == 0 {
        assert(join_lines(ls) =~= newlines(0) + buffer_of(ls));
    } else {
        let prefix = ls.drop_last();
        let x = ls.last();
        lemma_join_vs_buffer(prefix);
        let k = choose|k: nat| join_lines(prefix) == newlines(k) + buffer_of(prefix);
        assert(ls =~= prefix.push(x));
        if prefix.len() == 0 {
            assert(join_lines(ls) == ls[0]);
            assert(buffer_of(ls) == glue(buffer_of(prefix), x));
            assert(buffer_of(prefix) =~= Seq::<char>::empty());
            assert(join_lines(ls) =~= newlines(0) + buffer_of(ls));
        } else {
            lemma_join_snoc(prefix, x);
            if buffer_of(prefix).len() == 0 {
                assert(join_lines(prefix) =~= newlines(k));
                assert(buffer_of(ls) == x);
                assert(join_lines(ls) =~= newlines(k + 1) + buffer_of(ls));
            } else {
                assert(buffer_of(ls) == buffer_of(prefix) + seq!['\n'] + x);
                assert(join_lines(ls) =~= newlines(k) + buffer_of(ls));
            }
        }
    }
}

/// Leading whitespace aside, the assembler's buffer and the plain join of
/// the same lines trim to the same value.
pub proof fn lemma_trim_buffer_is_trim_join(ls: Seq<Seq<char>>)
    ensures
        trim_spec(buffer_of(ls)) == trim_spec(join_lines(ls)),
{
    lemma_join_vs_buffer(ls);
    let k = choose|k: nat| join_lines(ls) == newlines(k) + buffer_of(ls);
    lemma_trim_newlines_prefix(k, buffer_of(ls));
}

proof fn lemma_trim_newlines_prefix(k: nat, s: Seq<char>)
    ensures
        trim_spec(newlines(k) + s) == trim_spec(s),
    decreases k,
{
    if k == 0 {
        assert(newlines(0) + s =~= s);
    } else {
        let t = newlines(k) + s;
        assert(t.len() > 0 && t[0] == '\n');
        lemma_trim_drop_space_front(t);
        assert(t.drop_first() =~= newlines((k - 1) as nat) + s);
        lemma_trim_newlines_prefix((k - 1) as nat, s);
    }
}

/// Index of the first newline in `s`, or `s.len()` if there is none.
pub open spec fn first_nl(s: Seq<char>) -> nat
    decreases s.len(),
{
    if s.len() == 0 {
        0
    } else if s[0] == '\n' {
        0
    } else {
        1 + first_nl(s.drop_first())
    }
}


/// A scan that saw no newline before `n`, and a newline or the end at `n`,
/// found the first newline.
pub proof fn lemma_first_nl_at(s: Seq<char>, n: int)
    requires
        0 <= n <= s.len(),
        forall|i: int| 0 <= i < n ==> s[i] != '\n',
        n == s.len() || s[n] == '\n',
    ensures
        first_nl(s) == n,
    decreases n,
{
    if n == 0 {
    } else {
        let t = s.drop_first();
        assert(forall|i: int| 0 <= i < n - 1 ==> #[trigger] t[i] != '\n');
        lemma_first_nl_at(t, n - 1);
    }
}

/// Drops a single trailing carriage return, as line splitting does.
pub open spec fn strip_cr(s: Seq<char>) -> Seq<char> {
    if s.len() > 0 && s[s.len() - 1] == '\r' {
        s.drop_last()
    } else {
        s
    }
}

/// The lines of a document: pieces between newlines, each with a trailing
/// carriage return removed; a trailing newline does not open a final empty
/// line.
pub open spec fn lines_spec(s: Seq<char>) -> Seq<Seq<char>>
    decreases s.len(),
{
    if s.len() == 0 {
        Seq::empty()
    } else {
        let i = first_nl(s);
        if i >= s.len() {
            seq![strip_cr(s)]
        } else {
            seq![strip_cr(s.take(i as int))] + lines_spec(s.skip(i as int + 1))
        }
    }
}

/// No line contains a newline character.
pub open spec fn line_shaped(s: Seq<char>) -> bool {
    forall|i: int| 0 <= i < s.len() ==> s[i] != '\n'
}

/// Splits a document into its lines.
pub fn split_lines(v: &Vec<char>) -> (r: Vec<Vec<char>>)
    ensures
        views(r@) == lines_spec(v@),
        forall|k: int| 0 <= k < r@.len() ==> line_shaped(#[trigger] r@[k]@),
{
    let n = v.len();
    let mut r: Vec<Vec<char>> = Vec::new();
    let mut j: usize = 0;
    proof {
        assert(v@.skip(0) =~= v@);
        assert(views(r@) + lines_spec(v@.skip(0)) =~= lines_spec(v@));
    }
    while j < n
        invariant
            n == v.len(),
            0 <= j <= n,
            lines_spec(v@) =~= views(r@) + lines_spec(v@.skip(j as int)),
            forall|k: int| 0 <= k < r@.len() ==> line_shaped(#[trigger] r@[k]@),
        decreases n - j,
    {
        let ghost rest = v@.skip(j as int);
        let mut k: usize = j;
        while k < n && v[k] != '\n'
            invariant
                n == v.len(),
                j <= k <= n,
                forall|m: int| j <= m < k ==> v@[m] != '\n',
            decreases n - k,
        {
            k = k + 1;
        }
        proof {
            assert(forall|m: int| 0 <= m < k - j ==> #[trigger] rest[m] != '\n');
            lemma_first_nl_at(rest, k - j);
        }
        let mut end = k;
        if end > j && v[end - 1] == '\r' {
            end = end - 1;
        }
        let mut piece: Vec<char> = Vec::new();
        let mut m: usize = j;
        while m < end
            invariant
                n == v.len(),
                j <= m <= end <= n,
                piece@ == v@.subrange(j as int, m as int),
            decreases end - m,
        {
            piece.push(v[m]);
            assert(piece@ =~= v@.subrange(j as int, m + 1));
            m = m + 1;
        }
        proof {
            let raw = v@.subrange(j as int, k as int);
            assert(strip_cr(raw) =~= v@.subrange(j as int, end as int));
            if k == n {
                assert(rest =~= raw);
            } else {
                assert(rest.take(k - j) =~= raw);
            }
        }
        let ghost old_r = r@;
        r.push(piece);
        proof {
            assert(views(r@) =~= views(old_r).push(piece@));
        }
        if k < n {
            proof {
                assert(rest.skip(k - j + 1) =~= v@.skip(k + 1));
                assert(lines_spec(rest) =~= seq![piece@] + lines_spec(v@.skip(k + 1)));
                assert(views(old_r).push(piece@) + lines_spec(v@.skip(k + 1)) =~= views(old_r)
                    + lines_spec(rest));
            }
            j = k + 1;
        } else {
            proof {
                assert(lines_spec(rest) =~= seq![piece@]);
                assert(v@.skip(n as int) =~= Seq::<char>::empty());
                assert(lines_spec(v@.skip(n as int)) =~= Seq::<Seq<char>>::empty());
                assert(views(old_r).push(piece@) + lines_spec(v@.skip(n as int)) =~= views(old_r)
                    + lines_spec(rest));
            }
            j = n;
        }
    }
    proof {
        assert(v@.skip(n as int) =~= Seq::<char>::empty());
        assert(views(r@) =~= lines_spec(v@));
    }
    r
}

/// Copies the characters of `v` between positions `a` and `b`.
pub fn copy_range(v: &Vec<char>, a: usize, b: usize) -> (r: Vec<char>)
    requires
        a <= b <= v@.len(),
    ensures
        r@ == v@.subrange(a as int, b as int),
{
    let mut r: Vec<char> = Vec::new();
    let mut i: usize = a;
    while i < b
        invariant
            a <= i <= b <= v@.len(),
            r@ == v@.subrange(a as int, i as int),
        decreases b - i,
    {
        r.push(v[i]);
        assert(r@ =~= v@.subrange(a as int, i + 1));
        i = i + 1;
    }
    r
}

/// The trimmed value is a contiguous window of the original.
pub proof fn lemma_trim_window(s: Seq<char>)
    ensures
        exists|a: int|
            0 <= a && a + trim_spec(s).len() <= s.len() && trim_spec(s) == #[trigger] s.subrange(
                a,
                a + trim_spec(s).len(),
            ),
{
    lemma_trim_start_props(s);
    let t = trim_start_spec(s);
    let a = s.len() - t.len();
    lemma_trim_end_props(t);
    let r = trim_end_spec(t);
    assert(t.subrange(0, r.len() as int) =~= s.subrange(a, a + r.len()));
    assert(trim_spec(s) == s.subrange(a, a + trim_spec(s).len()));
}

/// Relies on `String::push`: appends exactly the given character.
#[verifier::external_body]
pub(crate) fn push_char(s: &mut String, c: char)
    ensures
        final(s)@ == old(s)@.push(c),
{
    s.push(c);
}

/// Builds a `String` whose characters are exactly those of `v`.
pub fn chars_to_string(v: &Vec<char>) -> (r: String)
    ensures
        r@ == v@,
{
    let mut r = String::new();
    let mut i: usize = 0;
    while i < v.len()
        invariant
            0 <= i <= v.len(),
            r@ == v@.take(i as int),
        decreases v.len() - i,
    {
        push_char(&mut r, v[i]);
        assert(r@ =~= v@.take(i + 1));
        i = i + 1;
    }
    assert(v@.take(v.len() as int) =~= v@);
    r
}

/// Character-wise equality of two string slices.
pub fn str_eq(a: &str, b: &str) -> (r: bool)
    ensures
        r == (a@ == b@),
{
    let na = a.unicode_len();
    let nb = b.unicode_len();
    if na != nb {
        return false;
    }
    let mut i: usize = 0;
    while i < na
        invariant
            na == a@.len(),
            na == b@.len(),
            0 <= i <= na,
            forall|t: int| 0 <= t < i ==> a@[t] == b@[t],
        decreases na - i,
    {
        if a.get_char(i) != b.get_char(i) {
            return false;
        }
        i = i + 1;
    }
    proof {
        assert(a@ =~= b@);
    }
    true
}

/// Collects the characters of a string slice.
pub fn str_to_chars(s: &str) -> (r: Vec<char>)
    ensures
        r@ == s@,
{
    let n = s.unicode_len();
    let mut r: Vec<char> = Vec::new();
    let mut i: usize = 0;
    while i < n
        invariant
            n == s@.len(),
            0 <= i <= n,
            r@ == s@.take(i as int),
        decreases n - i,
    {
        r.push(s.get_char(i));
        assert(r@ =~= s@.take(i + 1));
        i = i + 1;
    }
    assert(s@.take(n as int) =~= s@);
    r
}

} // verus!
