use vstd::prelude::*;
use crate::chars::{byte_len, chars_of, string_of, utf8_len};
use crate::pattern::{
    collapse, collapse_chars, contains, end_non_ws, extend_chars, first_non_ws,
    lemma_collapse_free, lemma_end_non_ws, lemma_first_non_ws, replace_all, replace_chars,
    skip_ws, skip_ws_back, slice_chars, trim,
};

verus! {

/// The source formatter: re-indents nothing, but spaces operators evenly
/// outside string literals and trims each line.
pub struct Formatter;

// ---------------------------------------------------------------------------
// What formatting is
// ---------------------------------------------------------------------------

/// A run of `n` spaces.
pub open spec fn spaces(n: nat) -> Seq<char> {
    Seq::new(n, |_i: int| ' ')
}

/// The first position at or after `i` holding `c`, or the length of `s`.
pub open spec fn next_char(s: Seq<char>, i: int, c: char) -> int
    decreases s.len() - i,
{
    if i >= s.len() {
        s.len() as int
    } else if s[i] == c {
        i
    } else {
        next_char(s, i + 1, c)
    }
}

pub proof fn lemma_next_char(s: Seq<char>, i: int, c: char)
    requires
        0 <= i <= s.len(),
    ensures
        i <= next_char(s, i, c) <= s.len(),
        next_char(s, i, c) < s.len() ==> s[next_char(s, i, c)] == c,
        forall|k: int| i <= k < next_char(s, i, c) ==> s[k] != c,
    decreases s.len() - i,
{
    if i < s.len() && s[i] != c {
        lemma_next_char(s, i + 1, c);
    }
}

/// One operator spaced: `op` becomes ` op `, whatever blanks stood beside it.
pub open spec fn spaced_op(s: Seq<char>, op: Seq<char>, ph: Seq<char>, spaced: Seq<char>) -> Seq<
    char,
> {
    let s1 = replace_all(s, op, ph);
    let s2 = replace_all(s1, " "@ + ph, ph);
    let s3 = replace_all(s2, ph + " "@, ph);
    replace_all(s3, ph, spaced)
}

/// A piece of code outside string literals with its operators spaced, before
/// its runs of blanks are collapsed.
pub open spec fn operators_spaced(s: Seq<char>) -> Seq<char> {
    let s = spaced_op(s, "+"@, "__+__"@, " + "@);
    let s = spaced_op(s, "-"@, "__-__"@, " - "@);
    let s = spaced_op(s, "*"@, "__*__"@, " * "@);
    let s = spaced_op(s, "/"@, "__/__"@, " / "@);
    let s = replace_all(s, "=="@, "__DOUBLE_EQUAL__"@);
    let s = replace_all(s, "!="@, "__NOT_EQUAL__"@);
    let s = replace_all(s, ">="@, "__GREATER_EQUAL__"@);
    let s = replace_all(s, "<="@, "__LESS_EQUAL__"@);
    let s = replace_all(s, "="@, " __EQUAL__ "@);
    let s = collapse(s, "  __EQUAL__"@, " __EQUAL__"@);
    let s = collapse(s, "__EQUAL__  "@, "__EQUAL__ "@);
    let s = replace_all(s, "__EQUAL__"@, "="@);
    let s = replace_all(s, "__DOUBLE_EQUAL__"@, "=="@);
    let s = replace_all(s, "__NOT_EQUAL__"@, "!="@);
    let s = replace_all(s, "__GREATER_EQUAL__"@, ">="@);
    let s = replace_all(s, "__LESS_EQUAL__"@, "<="@);
    let s = replace_all(replace_all(s, " يساوي "@, "يساوي"@), "يساوي"@, " يساوي "@);
    replace_all(replace_all(s, " مساوي "@, "مساوي"@), "مساوي"@, " مساوي "@)
}

/// A piece of code outside string literals, with its operators spaced and
/// its runs of spaces collapsed into one.
pub open spec fn operators_formatted(s: Seq<char>) -> Seq<char> {
    collapse(operators_spaced(s), "  "@, " "@)
}

/// The line `s` formatted from position `i`, which lies outside string
/// literals: the code up to the next `"` has its operators formatted.
pub open spec fn formatted_from(s: Seq<char>, i: int) -> Seq<char>
    decreases s.len() - i, 1int,
{
    if i < 0 || i >= s.len() {
        Seq::empty()
    } else {
        let q = next_char(s, i, '"');
        proof {
            lemma_next_char(s, i, '"');
        }
        let head = operators_formatted(s.subrange(i, q));
        if q >= s.len() {
            head
        } else {
            head + literal_from(s, q)
        }
    }
}

/// The line `s` from the `"` at `q` that opens a string literal: the literal
/// is kept as it is, up to its closing `"` or to the end of the line.
pub open spec fn literal_from(s: Seq<char>, q: int) -> Seq<char>
    decreases s.len() - q, 0int,
{
    if q < 0 || q >= s.len() {
        Seq::empty()
    } else {
        let c = next_char(s, q + 1, '"');
        proof {
            lemma_next_char(s, q + 1, '"');
        }
        if c >= s.len() {
            s.subrange(q, s.len() as int)
        } else {
            s.subrange(q, c + 1) + formatted_from(s, c + 1)
        }
    }
}

/// A trimmed line with its operators formatted outside string literals.
pub open spec fn safely_formatted(s: Seq<char>) -> Seq<char> {
    formatted_from(s, 0)
}

/// One line of source formatted: empty if it is blank, else its leading
/// white space as as many spaces as it has bytes, then the trimmed line
/// formatted.
pub open spec fn formatted_line(line: Seq<char>) -> Seq<char> {
    let t = trim(line);
    if t.len() == 0 {
        Seq::empty()
    } else {
        spaces(utf8_len(line.take(first_non_ws(line, 0)))) + safely_formatted(t)
    }
}

/// The lines of `s` from position `i`: the pieces between line feeds, with
/// no piece after a final line feed.
pub open spec fn split_lines(s: Seq<char>, i: int) -> Seq<Seq<char>>
    decreases s.len() - i,
{
    if i < 0 || i >= s.len() {
        Seq::empty()
    } else {
        let e = next_char(s, i, '\n');
        proof {
            lemma_next_char(s, i, '\n');
        }
        if e >= s.len() {
            seq![s.subrange(i, e)]
        } else {
            seq![s.subrange(i, e)] + split_lines(s, e + 1)
        }
    }
}

/// Lines joined with line feeds between them.
pub open spec fn join_lines(ls: Seq<Seq<char>>) -> Seq<char>
    decreases ls.len(),
{
    if ls.len() == 0 {
        Seq::empty()
    } else if ls.len() == 1 {
        ls[0]
    } else {
        join_lines(ls.drop_last()) + seq!['\n'] + ls.last()
    }
}

/// Every line formatted.
pub open spec fn formatted_lines(ls: Seq<Seq<char>>) -> Seq<Seq<char>> {
    ls.map_values(|l: Seq<char>| formatted_line(l))
}

/// A whole source formatted: its lines formatted and joined, ending with a
/// line feed unless nothing is left.
pub open spec fn formatted_source(src: Seq<char>) -> Seq<char> {
    let joined = join_lines(formatted_lines(split_lines(src, 0)));
    if joined.len() > 0 && joined.last() != '\n' {
        joined.push('\n')
    } else {
        joined
    }
}

// ---------------------------------------------------------------------------
// The formatter
// ---------------------------------------------------------------------------

/// The first position at or after `i` holding `c`, or the length.
fn find_char(s: &Vec<char>, i: usize, c: char) -> (r: usize)
    requires
        i <= s@.len(),
    ensures
        r == next_char(s@, i as int, c),
{
    proof {
        lemma_next_char(s@, i as int, c);
    }
    let mut k = i;
    while k < s.len()
        invariant
            i <= k <= s@.len(),
            next_char(s@, k as int, c) == next_char(s@, i as int, c),
        decreases s@.len() - k,
    {
        if s[k] == c {
            return k;
        }
        k = k + 1;
    }
    k
}

/// `s` with `pat` replaced by `rep`.
fn replace_lit(s: &Vec<char>, pat: &str, rep: &str) -> (r: Vec<char>)
    requires
        pat@.len() > 0,
    ensures
        r@ == replace_all(s@, pat@, rep@),
{
    replace_chars(s, &chars_of(pat), &chars_of(rep))
}

/// `s` with `pat` replaced by the shorter `rep` while `pat` occurs.
fn collapse_lit(s: Vec<char>, pat: &str, rep: &str) -> (r: Vec<char>)
    requires
        rep@.len() < pat@.len(),
    ensures
        r@ == collapse(s@, pat@, rep@),
{
    collapse_chars(s, &chars_of(pat), &chars_of(rep))
}

/// One operator spaced.
fn space_op(s: &Vec<char>, op: &str, ph: &str, spaced: &str) -> (r: Vec<char>)
    requires
        op@.len() > 0,
        ph@.len() > 0,
    ensures
        r@ == spaced_op(s@, op@, ph@, spaced@),
{
    let p = chars_of(ph);
    let mut blank_ph: Vec<char> = Vec::new();
    blank_ph.push(' ');
    extend_chars(&mut blank_ph, &p);
    let mut ph_blank: Vec<char> = Vec::new();
    extend_chars(&mut ph_blank, &p);
    ph_blank.push(' ');
    proof {
        reveal_strlit(" ");
        assert(blank_ph@ =~= " "@ + ph@);
        assert(ph_blank@ =~= ph@ + " "@);
    }
    let s1 = replace_chars(s, &chars_of(op), &p);
    let s2 = replace_chars(&s1, &blank_ph, &p);
    let s3 = replace_chars(&s2, &ph_blank, &p);
    replace_chars(&s3, &p, &chars_of(spaced))
}

/// The characters of a piece of code with its operators formatted.
fn operator_chars(part: &Vec<char>) -> (r: Vec<char>)
    ensures
        r@ == operators_formatted(part@),
{
    proof {
        reveal_strlit("+");
        reveal_strlit("__+__");
        reveal_strlit("-");
        reveal_strlit("__-__");
        reveal_strlit("*");
        reveal_strlit("__*__");
        reveal_strlit("/");
        reveal_strlit("__/__");
        reveal_strlit("==");
        reveal_strlit("!=");
        reveal_strlit(">=");
        reveal_strlit("<=");
        reveal_strlit("=");
        reveal_strlit("  __EQUAL__");
        reveal_strlit(" __EQUAL__");
        reveal_strlit("__EQUAL__  ");
        reveal_strlit("__EQUAL__ ");
        reveal_strlit("__EQUAL__");
        reveal_strlit("__DOUBLE_EQUAL__");
        reveal_strlit("__NOT_EQUAL__");
        reveal_strlit("__GREATER_EQUAL__");
        reveal_strlit("__LESS_EQUAL__");
        reveal_strlit(" يساوي ");
        reveal_strlit("يساوي");
        reveal_strlit(" مساوي ");
        reveal_strlit("مساوي");
        reveal_strlit("  ");
        reveal_strlit(" ");
    }
    let f = space_op(part, "+", "__+__", " + ");
    let f = space_op(&f, "-", "__-__", " - ");
    let f = space_op(&f, "*", "__*__", " * ");
    let f = space_op(&f, "/", "__/__", " / ");
    let f = replace_lit(&f, "==", "__DOUBLE_EQUAL__");
    let f = replace_lit(&f, "!=", "__NOT_EQUAL__");
    let f = replace_lit(&f, ">=", "__GREATER_EQUAL__");
    let f = replace_lit(&f, "<=", "__LESS_EQUAL__");
    let f = replace_lit(&f, "=", " __EQUAL__ ");
    let f = collapse_lit(f, "  __EQUAL__", " __EQUAL__");
    let f = collapse_lit(f, "__EQUAL__  ", "__EQUAL__ ");
    let f = replace_lit(&f, "__EQUAL__", "=");
    let f = replace_lit(&f, "__DOUBLE_EQUAL__", "==");
    let f = replace_lit(&f, "__NOT_EQUAL__", "!=");
    let f = replace_lit(&f, "__GREATER_EQUAL__", ">=");
    let f = replace_lit(&f, "__LESS_EQUAL__", "<=");
    let f = replace_lit(&f, " يساوي ", "يساوي");
    let f = replace_lit(&f, "يساوي", " يساوي ");
    let f = replace_lit(&f, " مساوي ", "مساوي");
    let f = replace_lit(&f, "مساوي", " مساوي ");
    collapse_lit(f, "  ", " ")
}

/// The characters of a trimmed line formatted outside string literals.
#[verifier::spinoff_prover]
fn safe_line_chars(line: &Vec<char>) -> (r: Vec<char>)
    ensures
        r@ == safely_formatted(line@),
{
    let ghost s = line@;
    let mut out: Vec<char> = Vec::new();
    let mut i: usize = 0;
    assert(out@ + formatted_from(s, 0) =~= formatted_from(s, 0));
    while i < line.len()
        invariant
            s == line@,
            i <= s.len(),
            out@ + formatted_from(s, i as int) == formatted_from(s, 0),
        decreases s.len() - i,
    {
        let q = find_char(line, i, '"');
        proof {
            lemma_next_char(s, i as int, '"');
        }
        let part = slice_chars(line, i, q);
        let f = operator_chars(&part);
        let ghost before = out@;
        extend_chars(&mut out, &f);
        if q >= line.len() {
            assert(formatted_from(s, i as int) == f@);
            return out;
        }
        let c = find_char(line, q + 1, '"');
        proof {
            lemma_next_char(s, q + 1, '"');
        }
        assert(formatted_from(s, i as int) == f@ + literal_from(s, q as int));
        if c >= line.len() {
            let rest = slice_chars(line, q, line.len());
            extend_chars(&mut out, &rest);
            assert(literal_from(s, q as int) == rest@);
            assert(out@ =~= before + (f@ + rest@));
            return out;
        }
        let lit = slice_chars(line, q, c + 1);
        extend_chars(&mut out, &lit);
        assert(literal_from(s, q as int) == lit@ + formatted_from(s, c + 1));
        assert(before + (f@ + (lit@ + formatted_from(s, c + 1))) =~= out@ + formatted_from(
            s,
            c + 1,
        ));
        i = c + 1;
    }
    assert(formatted_from(s, i as int) == Seq::<char>::empty());
    assert(out@ + Seq::<char>::empty() =~= out@);
    out
}

/// The characters of one formatted line.
fn line_chars(line: &Vec<char>) -> (r: Vec<char>)
    requires
        line@.len() <= usize::MAX / 4,
    ensures
        r@ == formatted_line(line@),
{
    let a = skip_ws(line, 0);
    let b = skip_ws_back(line, line.len());
    proof {
        lemma_first_non_ws(line@, 0);
        lemma_end_non_ws(line@, line@.len() as int);
    }
    if a >= b {
        assert(trim(line@).len() == 0);
        return Vec::new();
    }
    let t = slice_chars(line, a, b);
    let n = byte_len(line, a);
    let mut out: Vec<char> = Vec::new();
    let mut k: usize = 0;
    while k < n
        invariant
            k <= n,
            out@ == spaces(k as nat),
        decreases n - k,
    {
        out.push(' ');
        assert(out@ =~= spaces((k + 1) as nat));
        k = k + 1;
    }
    let body = safe_line_chars(&t);
    extend_chars(&mut out, &body);
    out
}

impl Formatter {
    /// Spaces the operators of a piece of code (` + `, ` - `, ` * `, ` / `,
    /// ` = ` and the Arabic `يساوي`/`مساوي`), leaves `==`, `!=`, `>=` and `<=`
    /// whole, and collapses runs of spaces.
    pub fn format_operators(part: &str) -> (r: String)
        ensures
            r@ == operators_formatted(part@),
            !contains(r@, "  "@),
    {
        let v = chars_of(part);
        let f = operator_chars(&v);
        assert(f@.subrange(0, f@.len() as int) =~= f@);
        proof {
            reveal_strlit("  ");
            reveal_strlit(" ");
            lemma_operators_no_double_space(part@);
        }
        string_of(&f, 0, f.len())
    }

    /// Formats a trimmed line: the code outside string literals has its
    /// operators formatted, the literals (up to their closing quote, or to
    /// the end of an unclosed one) are kept as they are.
    pub fn format_line_safely(line: &str) -> (r: String)
        ensures
            r@ == safely_formatted(line@),
    {
        let v = chars_of(line);
        let f = safe_line_chars(&v);
        assert(f@.subrange(0, f@.len() as int) =~= f@);
        string_of(&f, 0, f.len())
    }

    /// Formats a whole source: each line is trimmed and formatted, keeps as
    /// many spaces as its indentation had bytes, blank lines become empty, and
    /// the result ends with a line feed unless it is empty.
    pub fn format_source(source: &str) -> (r: String)
        requires
            source@.len() <= usize::MAX / 4,
        ensures
            r@ == formatted_source(source@),
            r@.len() == 0 || r@.last() == '\n',
    {
        let s = chars_of(source);
        let mut out: Vec<char> = Vec::new();
        let ghost mut done: Seq<Seq<char>> = Seq::empty();
        let mut started = false;
        let mut i: usize = 0;
        assert(split_lines(s@, 0) =~= done + split_lines(s@, 0));
        while i < s.len()
            invariant
                s@ == source@,
                s@.len() <= usize::MAX / 4,
                i <= s@.len(),
                started == (done.len() > 0),
                split_lines(s@, 0) == done + split_lines(s@, i as int),
                out@ == join_lines(formatted_lines(done)),
            decreases s@.len() - i,
        {
            let e = find_char(&s, i, '\n');
            proof {
                lemma_next_char(s@, i as int, '\n');
            }
            let line = slice_chars(&s, i, e);
            let fl = line_chars(&line);
            let ghost before = out@;
            if started {
                out.push('\n');
            }
            extend_chars(&mut out, &fl);
            proof {
                let d2 = done.push(line@);
                assert(formatted_lines(d2) =~= formatted_lines(done).push(formatted_line(line@)));
                assert(formatted_lines(d2).drop_last() =~= formatted_lines(done));
                if done.len() == 0 {
                    assert(out@ =~= join_lines(formatted_lines(d2)));
                } else {
                    assert(out@ =~= join_lines(formatted_lines(d2)));
                }
                if e >= s@.len() {
                    assert(split_lines(s@, i as int) == seq![line@]);
                    assert(split_lines(s@, s@.len() as int) == Seq::<Seq<char>>::empty());
                    assert(done + split_lines(s@, i as int) =~= d2 + split_lines(
                        s@,
                        s@.len() as int,
                    ));
                } else {
                    assert(split_lines(s@, i as int) == seq![line@] + split_lines(s@, e + 1));
                    assert(done + split_lines(s@, i as int) =~= d2 + split_lines(s@, e + 1));
                }
                done = d2;
            }
            started = true;
            if e < s.len() {
                i = e + 1;
            } else {
                i = s.len();
            }
        }
        assert(split_lines(s@, i as int) == Seq::<Seq<char>>::empty());
        assert(done =~= split_lines(s@, 0));
        if out.len() > 0 && out[out.len() - 1] != '\n' {
            out.push('\n');
        }
        assert(out@.subrange(0, out@.len() as int) =~= out@);
        string_of(&out, 0, out.len())
    }
}

/// What `format_operators` gives never holds two spaces in a row.
pub proof fn lemma_operators_no_double_space(s: Seq<char>)
    ensures
        !contains(operators_formatted(s), "  "@),
{
    reveal_strlit("  ");
    reveal_strlit(" ");
    lemma_collapse_free(operators_spaced(s), "  "@, " "@);
}

/// The first `c` at or after `i` is at `j` when `j` holds one and nothing
/// between does.
proof fn lemma_next_char_at(s: Seq<char>, i: int, j: int, c: char)
    requires
        0 <= i <= j <= s.len(),
        j < s.len() ==> s[j] == c,
        forall|k: int| i <= k < j ==> s[k] != c,
    ensures
        next_char(s, i, c) == j,
    decreases j - i,
{
    if i < j {
        lemma_next_char_at(s, i + 1, j, c);
    }
}

/// Code without anything to format formats as nothing.
proof fn lemma_operators_formatted_empty()
    ensures
        operators_formatted(Seq::empty()) == Seq::<char>::empty(),
{
    reveal_strlit("+");
    reveal_strlit("-");
    reveal_strlit("*");
    reveal_strlit("/");
    reveal_strlit("__+__");
    reveal_strlit("__-__");
    reveal_strlit("__*__");
    reveal_strlit("__/__");
    reveal_strlit("==");
    reveal_strlit("!=");
    reveal_strlit(">=");
    reveal_strlit("<=");
    reveal_strlit("=");
    reveal_strlit("__EQUAL__");
    reveal_strlit("__DOUBLE_EQUAL__");
    reveal_strlit("__NOT_EQUAL__");
    reveal_strlit("__GREATER_EQUAL__");
    reveal_strlit("__LESS_EQUAL__");
    reveal_strlit("  __EQUAL__");
    reveal_strlit(" __EQUAL__");
    reveal_strlit("__EQUAL__  ");
    reveal_strlit("__EQUAL__ ");
    reveal_strlit(" يساوي ");
    reveal_strlit("يساوي");
    reveal_strlit(" مساوي ");
    reveal_strlit("مساوي");
    reveal_strlit("  ");
    reveal_strlit(" ");
    let e = Seq::<char>::empty();
    assert forall|pat: Seq<char>| pat.len() > 0 implies !contains(e, pat) by {
        if contains(e, pat) {
            let i = choose|i: int| crate::pattern::occurs_at(e, pat, i);
        }
    }
    assert(operators_spaced(e) == e);
}

/// Text between quotes is kept as it is: a line made of code `a`, a string
/// literal `"b"` and more code `c` formats as `a` formatted, the literal
/// unchanged, then `c` formatted.
pub proof fn lemma_literal_kept(a: Seq<char>, b: Seq<char>, c: Seq<char>)
    requires
        !a.contains('"'),
        !b.contains('"'),
        !c.contains('"'),
    ensures
        safely_formatted(a + seq!['"'] + b + seq!['"'] + c) == operators_formatted(a) + (seq![
            '"',
        ] + b + seq!['"']) + operators_formatted(c),
{
    let lit = seq!['"'] + b + seq!['"'];
    let s = a + seq!['"'] + b + seq!['"'] + c;
    assert(s =~= a + lit + c);
    let q = a.len() as int;
    let e = q + 1 + b.len();
    assert forall|k: int| 0 <= k < q implies s[k] != '"' by {
        assert(s[k] == a[k]);
    }
    assert(s[q] == '"');
    lemma_next_char_at(s, 0, q, '"');
    assert(s.subrange(0, q) =~= a);
    assert forall|k: int| q + 1 <= k < e implies s[k] != '"' by {
        assert(s[k] == b[k - q - 1]);
    }
    assert(s[e] == '"');
    lemma_next_char_at(s, q + 1, e, '"');
    assert(s.subrange(q, e + 1) =~= lit);
    assert(literal_from(s, q) == lit + formatted_from(s, e + 1));
    assert(formatted_from(s, 0) == operators_formatted(a) + literal_from(s, q));
    if c.len() == 0 {
        lemma_operators_formatted_empty();
        assert(formatted_from(s, e + 1) == Seq::<char>::empty());
    } else {
        assert forall|k: int| e + 1 <= k < s.len() implies s[k] != '"' by {
            assert(s[k] == c[k - e - 1]);
        }
        lemma_next_char_at(s, e + 1, s.len() as int, '"');
        assert(s.subrange(e + 1, s.len() as int) =~= c);
        assert(formatted_from(s, e + 1) == operators_formatted(c));
    }
    assert(operators_formatted(a) + (lit + formatted_from(s, e + 1)) =~= operators_formatted(a)
        + lit + formatted_from(s, e + 1));
}

/// Looking for `c` in `x + r` from inside `r` finds what looking in `r` finds.
proof fn lemma_next_char_shift(x: Seq<char>, r: Seq<char>, i: int, c: char)
    requires
        0 <= i <= r.len(),
    ensures
        next_char(x + r, x.len() + i, c) == x.len() + next_char(r, i, c),
    decreases r.len() - i,
{
    let s = x + r;
    if i < r.len() {
        assert(s[x.len() + i] == r[i]);
        if r[i] != c {
            lemma_next_char_shift(x, r, i + 1, c);
        }
    }
}

/// Formatting `x + r` from inside `r`, outside a literal, formats `r` alone.
proof fn lemma_formatted_shift(x: Seq<char>, r: Seq<char>, i: int)
    requires
        0 <= i,
    ensures
        formatted_from(x + r, x.len() + i) == formatted_from(r, i),
    decreases r.len() - i, 1int,
{
    let s = x + r;
    let k = x.len() + i;
    if i < r.len() {
        lemma_next_char_shift(x, r, i, '"');
        lemma_next_char(r, i, '"');
        let q = next_char(r, i, '"');
        assert(s.subrange(k, x.len() + q) =~= r.subrange(i, q));
        if q < r.len() {
            lemma_literal_shift(x, r, q);
        }
    }
}

/// Reading `x + r` from a quote inside `r` reads as `r` alone does.
proof fn lemma_literal_shift(x: Seq<char>, r: Seq<char>, q: int)
    requires
        0 <= q,
    ensures
        literal_from(x + r, x.len() + q) == literal_from(r, q),
    decreases r.len() - q, 0int,
{
    let s = x + r;
    if q < r.len() {
        lemma_next_char_shift(x, r, q + 1, '"');
        lemma_next_char(r, q + 1, '"');
        let c = next_char(r, q + 1, '"');
        if c >= r.len() {
            assert(s.subrange(x.len() + q, s.len() as int) =~= r.subrange(q, r.len() as int));
        } else {
            assert(s.subrange(x.len() + q, x.len() + c + 1) =~= r.subrange(q, c + 1));
            lemma_formatted_shift(x, r, c + 1);
        }
    }
}

/// Every string literal on a line is kept as it is: a line made of code `a`,
/// a literal `"b"` and any rest `r` formats as `a` formatted, the literal
/// unchanged, then the rest formatted as a line of its own (so the literals
/// of the rest are kept too).
pub proof fn lemma_literal_kept_then_rest(a: Seq<char>, b: Seq<char>, r: Seq<char>)
    requires
        !a.contains('"'),
        !b.contains('"'),
    ensures
        safely_formatted(a + seq!['"'] + b + seq!['"'] + r) == operators_formatted(a) + (seq![
            '"',
        ] + b + seq!['"']) + safely_formatted(r),
{
    let lit = seq!['"'] + b + seq!['"'];
    let x = a + lit;
    let s = a + seq!['"'] + b + seq!['"'] + r;
    assert(s =~= x + r);
    let q = a.len() as int;
    let e = q + 1 + b.len();
    assert forall|k: int| 0 <= k < q implies s[k] != '"' by {
        assert(s[k] == a[k]);
    }
    assert(s[q] == '"');
    lemma_next_char_at(s, 0, q, '"');
    assert(s.subrange(0, q) =~= a);
    assert forall|k: int| q + 1 <= k < e implies s[k] != '"' by {
        assert(s[k] == b[k - q - 1]);
    }
    assert(s[e] == '"');
    lemma_next_char_at(s, q + 1, e, '"');
    assert(s.subrange(q, e + 1) =~= lit);
    assert(literal_from(s, q) == lit + formatted_from(s, e + 1));
    assert(formatted_from(s, 0) == operators_formatted(a) + literal_from(s, q));
    lemma_formatted_shift(x, r, 0);
    assert(x.len() == e + 1);
    assert(formatted_from(s, e + 1) == safely_formatted(r));
    assert(operators_formatted(a) + (lit + safely_formatted(r)) =~= operators_formatted(a) + lit
        + safely_formatted(r));
}

} // verus!
