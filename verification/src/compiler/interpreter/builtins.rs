use vstd::prelude::*;
use crate::chars::{byte_len, chars_of, push_char, string_of, utf8_len};
use crate::pattern::{
    contains, contains_chars, extend_chars, lemma_end_non_ws, lemma_first_non_ws, occurs_at,
    occurs_at_chars, replace_all, replace_chars, skip_ws, skip_ws_back, slice_chars, trim,
};

verus! {

// ---------------------------------------------------------------------------
// The names of the builtin functions
// ---------------------------------------------------------------------------

/// The names a program can call builtin functions by, each with the builtin
/// it calls: every builtin has an Arabic and an English name.
pub open spec fn builtin_table() -> Seq<(Seq<char>, Seq<char>)> {
    seq![
        ("طول"@, "length"@),
        ("len"@, "length"@),
        ("نوع"@, "type"@),
        ("type"@, "type"@),
        ("نص"@, "string"@),
        ("str"@, "string"@),
        ("رقم"@, "number"@),
        ("number"@, "number"@),
        ("أضف"@, "append"@),
        ("append"@, "append"@),
        ("أول"@, "first"@),
        ("first"@, "first"@),
        ("آخر"@, "last"@),
        ("last"@, "last"@),
        ("يحتوي"@, "contains"@),
        ("contains"@, "contains"@),
        ("استبدل"@, "replace"@),
        ("replace"@, "replace"@),
        ("قطع"@, "slice"@),
        ("slice"@, "slice"@),
        ("تقسيم"@, "split"@),
        ("split"@, "split"@),
        ("دمج"@, "concat"@),
        ("concat"@, "concat"@),
        ("قص_فراغات"@, "trim"@),
        ("trim"@, "trim"@),
        ("يبدأ_بـ"@, "starts_with"@),
        ("starts_with"@, "starts_with"@),
        ("ينتهي_بـ"@, "ends_with"@),
        ("ends_with"@, "ends_with"@),
        ("حرف_عند"@, "char_at"@),
        ("char_at"@, "char_at"@),
        ("موضع"@, "index_of"@),
        ("index_of"@, "index_of"@),
        ("احذف"@, "pop"@),
        ("pop"@, "pop"@),
        ("عكس"@, "reverse"@),
        ("reverse"@, "reverse"@),
        ("فارغ"@, "is_empty"@),
        ("is_empty"@, "is_empty"@),
        ("مطلق"@, "abs"@),
        ("abs"@, "abs"@),
        ("جذر"@, "sqrt"@),
        ("sqrt"@, "sqrt"@),
        ("قوة"@, "pow"@),
        ("pow"@, "pow"@),
        ("تقريب"@, "round"@),
        ("round"@, "round"@),
        ("أكبر_قيمة"@, "max"@),
        ("max"@, "max"@),
        ("أصغر_قيمة"@, "min"@),
        ("min"@, "min"@),
    ]
}

/// The names of the builtin functions, in the order they are defined, each
/// with the builtin it calls.
pub fn builtin_names() -> (r: Vec<(&'static str, &'static str)>)
    ensures
        r@.len() == builtin_table().len(),
        forall|i: int| 0 <= i < r@.len() ==> (#[trigger] r@[i].0@, r@[i].1@) == builtin_table()[i],
{
    let v = vec![
        ("طول", "length"),
        ("len", "length"),
        ("نوع", "type"),
        ("type", "type"),
        ("نص", "string"),
        ("str", "string"),
        ("رقم", "number"),
        ("number", "number"),
        ("أضف", "append"),
        ("append", "append"),
        ("أول", "first"),
        ("first", "first"),
        ("آخر", "last"),
        ("last", "last"),
        ("يحتوي", "contains"),
        ("contains", "contains"),
        ("استبدل", "replace"),
        ("replace", "replace"),
        ("قطع", "slice"),
        ("slice", "slice"),
        ("تقسيم", "split"),
        ("split", "split"),
        ("دمج", "concat"),
        ("concat", "concat"),
        ("قص_فراغات", "trim"),
        ("trim", "trim"),
        ("يبدأ_بـ", "starts_with"),
        ("starts_with", "starts_with"),
        ("ينتهي_بـ", "ends_with"),
        ("ends_with", "ends_with"),
        ("حرف_عند", "char_at"),
        ("char_at", "char_at"),
        ("موضع", "index_of"),
        ("index_of", "index_of"),
        ("احذف", "pop"),
        ("pop", "pop"),
        ("عكس", "reverse"),
        ("reverse", "reverse"),
        ("فارغ", "is_empty"),
        ("is_empty", "is_empty"),
        ("مطلق", "abs"),
        ("abs", "abs"),
        ("جذر", "sqrt"),
        ("sqrt", "sqrt"),
        ("قوة", "pow"),
        ("pow", "pow"),
        ("تقريب", "round"),
        ("round", "round"),
        ("أكبر_قيمة", "max"),
        ("max", "max"),
        ("أصغر_قيمة", "min"),
        ("min", "min"),
    ];
    assert(forall|i: int| 0 <= i < v@.len() ==> (#[trigger] v@[i].0@, v@[i].1@) == builtin_table()[i]);
    v
}

/// Whether every character of `s` is ASCII.
pub open spec fn is_ascii_text(s: Seq<char>) -> bool {
    forall|i: int| 0 <= i < s.len() ==> (s[i] as u32) < 128
}

/// The builtin names come in pairs, an Arabic name and then an English one,
/// both calling the same builtin; and an English name is the name of the
/// builtin it calls, or a shortening of it (`len`, `str`).
pub proof fn lemma_builtin_names_agree()
    ensures
        builtin_table().len() % 2 == 0,
        forall|k: int|
            0 <= k < builtin_table().len() / 2 ==> #[trigger] builtin_table()[2 * k].1
                == builtin_table()[2 * k + 1].1 && !is_ascii_text(builtin_table()[2 * k].0),
        forall|i: int|
            0 <= i < builtin_table().len() && is_ascii_text(#[trigger] builtin_table()[i].0)
                ==> builtin_table()[i].0.len() <= builtin_table()[i].1.len() && builtin_table()[i].1.take(
                builtin_table()[i].0.len() as int,
            ) == builtin_table()[i].0,
{
    reveal_strlit("abs");
    reveal_strlit("append");
    reveal_strlit("char_at");
    reveal_strlit("concat");
    reveal_strlit("contains");
    reveal_strlit("ends_with");
    reveal_strlit("first");
    reveal_strlit("index_of");
    reveal_strlit("is_empty");
    reveal_strlit("last");
    reveal_strlit("len");
    reveal_strlit("length");
    reveal_strlit("max");
    reveal_strlit("min");
    reveal_strlit("number");
    reveal_strlit("pop");
    reveal_strlit("pow");
    reveal_strlit("replace");
    reveal_strlit("reverse");
    reveal_strlit("round");
    reveal_strlit("slice");
    reveal_strlit("split");
    reveal_strlit("sqrt");
    reveal_strlit("starts_with");
    reveal_strlit("str");
    reveal_strlit("string");
    reveal_strlit("trim");
    reveal_strlit("type");
    reveal_strlit("آخر");
    reveal_strlit("أصغر_قيمة");
    reveal_strlit("أضف");
    reveal_strlit("أكبر_قيمة");
    reveal_strlit("أول");
    reveal_strlit("احذف");
    reveal_strlit("استبدل");
    reveal_strlit("تقريب");
    reveal_strlit("تقسيم");
    reveal_strlit("جذر");
    reveal_strlit("حرف_عند");
    reveal_strlit("دمج");
    reveal_strlit("رقم");
    reveal_strlit("طول");
    reveal_strlit("عكس");
    reveal_strlit("فارغ");
    reveal_strlit("قص_فراغات");
    reveal_strlit("قطع");
    reveal_strlit("قوة");
    reveal_strlit("مطلق");
    reveal_strlit("موضع");
    reveal_strlit("نص");
    reveal_strlit("نوع");
    reveal_strlit("يبدأ_بـ");
    reveal_strlit("يحتوي");
    reveal_strlit("ينتهي_بـ");
    let t = builtin_table();
    assert(t[0].0[0] as u32 >= 128);
    assert(t[1].1.take(t[1].0.len() as int) =~= t[1].0);
    assert(t[2].0[0] as u32 >= 128);
    assert(t[3].1.take(t[3].0.len() as int) =~= t[3].0);
    assert(t[4].0[0] as u32 >= 128);
    assert(t[5].1.take(t[5].0.len() as int) =~= t[5].0);
    assert(t[6].0[0] as u32 >= 128);
    assert(t[7].1.take(t[7].0.len() as int) =~= t[7].0);
    assert(t[8].0[0] as u32 >= 128);
    assert(t[9].1.take(t[9].0.len() as int) =~= t[9].0);
    assert(t[10].0[0] as u32 >= 128);
    assert(t[11].1.take(t[11].0.len() as int) =~= t[11].0);
    assert(t[12].0[0] as u32 >= 128);
    assert(t[13].1.take(t[13].0.len() as int) =~= t[13].0);
    assert(t[14].0[0] as u32 >= 128);
    assert(t[15].1.take(t[15].0.len() as int) =~= t[15].0);
    assert(t[16].0[0] as u32 >= 128);
    assert(t[17].1.take(t[17].0.len() as int) =~= t[17].0);
    assert(t[18].0[0] as u32 >= 128);
    assert(t[19].1.take(t[19].0.len() as int) =~= t[19].0);
    assert(t[20].0[0] as u32 >= 128);
    assert(t[21].1.take(t[21].0.len() as int) =~= t[21].0);
    assert(t[22].0[0] as u32 >= 128);
    assert(t[23].1.take(t[23].0.len() as int) =~= t[23].0);
    assert(t[24].0[0] as u32 >= 128);
    assert(t[25].1.take(t[25].0.len() as int) =~= t[25].0);
    assert(t[26].0[0] as u32 >= 128);
    assert(t[27].1.take(t[27].0.len() as int) =~= t[27].0);
    assert(t[28].0[0] as u32 >= 128);
    assert(t[29].1.take(t[29].0.len() as int) =~= t[29].0);
    assert(t[30].0[0] as u32 >= 128);
    assert(t[31].1.take(t[31].0.len() as int) =~= t[31].0);
    assert(t[32].0[0] as u32 >= 128);
    assert(t[33].1.take(t[33].0.len() as int) =~= t[33].0);
    assert(t[34].0[0] as u32 >= 128);
    assert(t[35].1.take(t[35].0.len() as int) =~= t[35].0);
    assert(t[36].0[0] as u32 >= 128);
    assert(t[37].1.take(t[37].0.len() as int) =~= t[37].0);
    assert(t[38].0[0] as u32 >= 128);
    assert(t[39].1.take(t[39].0.len() as int) =~= t[39].0);
    assert(t[40].0[0] as u32 >= 128);
    assert(t[41].1.take(t[41].0.len() as int) =~= t[41].0);
    assert(t[42].0[0] as u32 >= 128);
    assert(t[43].1.take(t[43].0.len() as int) =~= t[43].0);
    assert(t[44].0[0] as u32 >= 128);
    assert(t[45].1.take(t[45].0.len() as int) =~= t[45].0);
    assert(t[46].0[0] as u32 >= 128);
    assert(t[47].1.take(t[47].0.len() as int) =~= t[47].0);
    assert(t[48].0[0] as u32 >= 128);
    assert(t[49].1.take(t[49].0.len() as int) =~= t[49].0);
    assert(t[50].0[0] as u32 >= 128);
    assert(t[51].1.take(t[51].0.len() as int) =~= t[51].0);
    assert forall|k: int| 0 <= k < t.len() / 2 implies #[trigger] t[2 * k].1 == t[2 * k + 1].1
        && !is_ascii_text(t[2 * k].0) by {
        assert(!((t[2 * k].0[0] as u32) < 128));
    }
    assert forall|i: int| 0 <= i < t.len() && is_ascii_text(#[trigger] t[i].0) implies t[i].0.len()
        <= t[i].1.len() && t[i].1.take(t[i].0.len() as int) == t[i].0 by {
        if i % 2 == 0 {
            assert((t[i].0[0] as u32) >= 128);
        }
    }
}

// ---------------------------------------------------------------------------
// The text builtins
// ---------------------------------------------------------------------------

/// The first position at or after `i` where `pat` occurs in `s`.
pub open spec fn next_occurrence(s: Seq<char>, pat: Seq<char>, i: int) -> Option<int>
    decreases s.len() + 1 - i,
{
    if i < 0 || i > s.len() {
        None
    } else if occurs_at(s, pat, i) {
        Some(i)
    } else {
        next_occurrence(s, pat, i + 1)
    }
}

pub proof fn lemma_next_occurrence(s: Seq<char>, pat: Seq<char>, i: int)
    requires
        0 <= i <= s.len(),
    ensures
        next_occurrence(s, pat, i) matches Some(k) ==> i <= k && occurs_at(s, pat, k),
        next_occurrence(s, pat, i) is None ==> forall|k: int| i <= k ==> !occurs_at(s, pat, k),
    decreases s.len() + 1 - i,
{
    if !occurs_at(s, pat, i) {
        if i < s.len() {
            lemma_next_occurrence(s, pat, i + 1);
        }
        assert forall|k: int| i <= k && next_occurrence(s, pat, i) is None implies !occurs_at(
            s,
            pat,
            k,
        ) by {
            if k > i && i < s.len() {
                assert(next_occurrence(s, pat, i + 1) is None);
            }
        }
    }
}

/// `s` from `i` cut at each occurrence of the nonempty separator `sep`.
pub open spec fn split_from(s: Seq<char>, sep: Seq<char>, i: int) -> Seq<Seq<char>>
    decreases s.len() + 1 - i,
{
    if sep.len() == 0 || i < 0 || i > s.len() {
        Seq::empty()
    } else {
        proof {
            lemma_next_occurrence(s, sep, i);
        }
        match next_occurrence(s, sep, i) {
            None => seq![s.subrange(i, s.len() as int)],
            Some(k) => seq![s.subrange(i, k)] + split_from(s, sep, k + sep.len()),
        }
    }
}

/// The pieces of `s` between the occurrences of `sep`; an empty separator
/// cuts before and after every character.
pub open spec fn split_text(s: Seq<char>, sep: Seq<char>) -> Seq<Seq<char>> {
    if sep.len() == 0 {
        seq![Seq::<char>::empty()] + s.map_values(|c: char| seq![c]) + seq![Seq::<char>::empty()]
    } else {
        split_from(s, sep, 0)
    }
}

/// `rep` before, between and after the characters of `s`.
pub open spec fn interleave(s: Seq<char>, rep: Seq<char>) -> Seq<char>
    decreases s.len(),
{
    if s.len() == 0 {
        rep
    } else {
        rep + seq![s[0]] + interleave(s.skip(1), rep)
    }
}

/// `s` with the occurrences of `old` replaced by `new`; an empty `old`
/// occurs before, between and after all characters.
pub open spec fn replaced(s: Seq<char>, old: Seq<char>, new: Seq<char>) -> Seq<char> {
    if old.len() == 0 {
        interleave(s, new)
    } else {
        replace_all(s, old, new)
    }
}

/// The characters of `s` from `start` up to `end`, both cut to its length.
pub open spec fn slice_of(s: Seq<char>, start: int, end: int) -> Seq<char> {
    let a = if start < s.len() {
        start
    } else {
        s.len() as int
    };
    let b = if end < s.len() {
        end
    } else {
        s.len() as int
    };
    s.subrange(a, b)
}

/// `text` without white space at either end.
pub fn trim_text(text: &str) -> (r: String)
    ensures
        r@ == trim(text@),
{
    let v = chars_of(text);
    let a = skip_ws(&v, 0);
    let b = skip_ws_back(&v, v.len());
    proof {
        lemma_first_non_ws(v@, 0);
        lemma_end_non_ws(v@, v@.len() as int);
    }
    if a < b {
        string_of(&v, a, b)
    } else {
        String::new()
    }
}

/// Whether `part` occurs in `text`.
pub fn contains_text(text: &str, part: &str) -> (r: bool)
    ensures
        r == contains(text@, part@),
{
    contains_chars(&chars_of(text), &chars_of(part))
}

/// Whether `text` begins with `part`.
pub fn starts_with_text(text: &str, part: &str) -> (r: bool)
    ensures
        r == occurs_at(text@, part@, 0),
{
    occurs_at_chars(&chars_of(text), &chars_of(part), 0)
}

/// Whether `text` ends with `part`.
pub fn ends_with_text(text: &str, part: &str) -> (r: bool)
    ensures
        r == (part@.len() <= text@.len() && occurs_at(text@, part@, text@.len() - part@.len())),
{
    let t = chars_of(text);
    let p = chars_of(part);
    if p.len() > t.len() {
        return false;
    }
    occurs_at_chars(&t, &p, t.len() - p.len())
}

/// The character of `text` at `index`, if there is one.
pub fn char_at_text(text: &str, index: usize) -> (r: Option<char>)
    ensures
        r == (if index < text@.len() {
            Some(text@[index as int])
        } else {
            None::<char>
        }),
{
    if index < text.unicode_len() {
        Some(text.get_char(index))
    } else {
        None
    }
}

/// The characters of `text` from `start` up to `end`.
pub fn slice_text(text: &str, start: usize, end: usize) -> (r: String)
    requires
        start <= end,
    ensures
        r@ == slice_of(text@, start as int, end as int),
{
    let v = chars_of(text);
    let n = v.len();
    let a = if start < n {
        start
    } else {
        n
    };
    let b = if end < n {
        end
    } else {
        n
    };
    string_of(&v, a, b)
}

/// The byte offset in UTF-8 of the first occurrence of `part` in `text`.
pub fn index_of_text(text: &str, part: &str) -> (r: Option<usize>)
    requires
        text@.len() <= usize::MAX / 4,
    ensures
        match next_occurrence(text@, part@, 0) {
            Some(k) => r == Some(utf8_len(text@.take(k)) as usize),
            None => r is None,
        },
{
    let t = chars_of(text);
    let p = chars_of(part);
    let mut i: usize = 0;
    loop
        invariant
            t@ == text@,
            p@ == part@,
            t@.len() <= usize::MAX / 4,
            i <= t@.len(),
            next_occurrence(t@, p@, i as int) == next_occurrence(t@, p@, 0),
        decreases t@.len() - i,
    {
        if occurs_at_chars(&t, &p, i) {
            return Some(byte_len(&t, i));
        }
        if i == t.len() {
            assert(next_occurrence(t@, p@, i + 1) is None);
            return None;
        }
        i = i + 1;
    }
}

/// `text` with `old` replaced by `new` everywhere it occurs.
pub fn replace_text(text: &str, old: &str, new: &str) -> (r: String)
    ensures
        r@ == replaced(text@, old@, new@),
{
    let t = chars_of(text);
    let o = chars_of(old);
    let n = chars_of(new);
    let out = if o.len() == 0 {
        interleave_chars(&t, &n)
    } else {
        replace_chars(&t, &o, &n)
    };
    string_of(&out, 0, out.len())
}

/// `rep` before, between and after the characters of `s`.
fn interleave_chars(s: &Vec<char>, rep: &Vec<char>) -> (r: Vec<char>)
    ensures
        r@ == interleave(s@, rep@),
{
    let mut out: Vec<char> = Vec::new();
    let mut i: usize = 0;
    assert(s@.skip(0) =~= s@);
    assert(out@ + interleave(s@, rep@) =~= interleave(s@, rep@));
    while i < s.len()
        invariant
            i <= s@.len(),
            out@ + interleave(s@.skip(i as int), rep@) == interleave(s@, rep@),
        decreases s@.len() - i,
    {
        let ghost before = out@;
        let ghost rest = s@.skip(i as int);
        assert(rest.skip(1) =~= s@.skip(i + 1));
        extend_chars(&mut out, rep);
        out.push(s[i]);
        assert(before + (rep@ + seq![rest[0]] + interleave(rest.skip(1), rep@)) =~= out@
            + interleave(s@.skip(i + 1), rep@));
        i = i + 1;
    }
    assert(s@.skip(i as int).len() == 0);
    extend_chars(&mut out, rep);
    out
}

/// The pieces of `text` between the occurrences of `sep`.
pub fn split_text_pieces(text: &str, sep: &str) -> (r: Vec<String>)
    ensures
        r@.map_values(|p: String| p@) == split_text(text@, sep@),
{
    let t = chars_of(text);
    let p = chars_of(sep);
    let mut out: Vec<String> = Vec::new();
    if p.len() == 0 {
        out.push(String::new());
        let mut i: usize = 0;
        while i < t.len()
            invariant
                i <= t@.len(),
                t@ == text@,
                out@.map_values(|x: String| x@) == seq![Seq::<char>::empty()] + t@.take(
                    i as int,
                ).map_values(|c: char| seq![c]),
            decreases t@.len() - i,
        {
            let mut s = String::new();
            push_char(&mut s, t[i]);
            let ghost before = out@;
            let ghost sv = s@;
            assert(sv =~= seq![t@[i as int]]);
            out.push(s);
            assert(out@.map_values(|x: String| x@) =~= before.map_values(|x: String| x@).push(sv));
            assert(t@.take(i + 1).map_values(|c: char| seq![c]) =~= t@.take(i as int).map_values(
                |c: char| seq![c],
            ).push(seq![t@[i as int]]));
            assert(out@.map_values(|x: String| x@) =~= seq![Seq::<char>::empty()] + t@.take(
                i + 1,
            ).map_values(|c: char| seq![c]));
            i = i + 1;
        }
        out.push(String::new());
        assert(t@.take(t@.len() as int) =~= t@);
        assert(out@.map_values(|x: String| x@) =~= split_text(text@, sep@));
        return out;
    }
    let mut i: usize = 0;
    assert(out@.map_values(|x: String| x@) + split_from(t@, p@, 0) =~= split_from(t@, p@, 0));
    loop
        invariant
            t@ == text@,
            p@ == sep@,
            p@.len() > 0,
            i <= t@.len(),
            out@.map_values(|x: String| x@) + split_from(t@, p@, i as int) == split_from(
                t@,
                p@,
                0,
            ),
        decreases t@.len() + 1 - i,
    {
        let ghost before = out@;
        proof {
            lemma_next_occurrence(t@, p@, i as int);
        }
        let mut k = i;
        let mut found = false;
        while k < t.len() && !found
            invariant
                i <= k <= t@.len(),
                found ==> occurs_at(t@, p@, k as int),
                next_occurrence(t@, p@, k as int) == next_occurrence(t@, p@, i as int),
            decreases t@.len() - k, if found { 0int } else { 1int },
        {
            if occurs_at_chars(&t, &p, k) {
                found = true;
            } else {
                k = k + 1;
            }
        }
        if !found && k == t.len() && occurs_at_chars(&t, &p, k) {
            found = true;
        }
        if !found {
            assert(next_occurrence(t@, p@, k as int) is None) by {
                if k < t@.len() {
                } else {
                    assert(next_occurrence(t@, p@, k + 1) is None);
                }
            }
            let piece = string_of(&t, i, t.len());
            out.push(piece);
            assert(out@.map_values(|x: String| x@) =~= before.map_values(|x: String| x@)
                + split_from(t@, p@, i as int));
            return out;
        }
        assert(next_occurrence(t@, p@, k as int) == Some(k as int));
        let piece = string_of(&t, i, k);
        out.push(piece);
        assert(out@.map_values(|x: String| x@) + split_from(t@, p@, k + p@.len()) =~= before.map_values(
            |x: String| x@,
        ) + split_from(t@, p@, i as int));
        i = k + p.len();
    }
}

} // verus!
