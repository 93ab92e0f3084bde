use vstd::prelude::*;
use crate::chars::str_eq;

verus! {

/// A function of the standard library: its English and Arabic names and the
/// module that holds it.
#[derive(Debug, Clone, Copy)]
pub struct StdFunction {
    pub english: &'static str,
    pub arabic: &'static str,
    pub module: &'static str,
}

/// The names and module of a library function.
pub open spec fn entry(f: StdFunction) -> (Seq<char>, Seq<char>, Seq<char>) {
    (f.english@, f.arabic@, f.module@)
}

/// The functions of the standard library, in order: English name, Arabic
/// name, module.
pub open spec fn std_entries() -> Seq<(Seq<char>, Seq<char>, Seq<char>)> {
    seq![
        ("abs"@, "مطلق"@, "math"@),
        ("max"@, "أكبر"@, "math"@),
        ("min"@, "أصغر"@, "math"@),
        ("length"@, "طول"@, "text"@),
        ("empty"@, "فارغ"@, "text"@),
        ("version"@, "إصدار"@, "system"@),
    ]
}

/// Whether an entry is called `name` in either language.
pub open spec fn named(e: (Seq<char>, Seq<char>, Seq<char>), name: Seq<char>) -> bool {
    e.0 == name || e.1 == name
}

/// The position of the first entry from `i` on that is called `name`.
pub open spec fn first_named(
    es: Seq<(Seq<char>, Seq<char>, Seq<char>)>,
    name: Seq<char>,
    i: int,
) -> Option<int>
    decreases es.len() - i,
{
    if i < 0 || i >= es.len() {
        None
    } else if named(es[i], name) {
        Some(i)
    } else {
        first_named(es, name, i + 1)
    }
}

/// The functions of the standard library.
pub fn functions() -> (r: Vec<StdFunction>)
    ensures
        r@.len() == std_entries().len(),
        forall|i: int| 0 <= i < r@.len() ==> entry(#[trigger] r@[i]) == std_entries()[i],
{
    let v = vec![
        StdFunction { english: "abs", arabic: "مطلق", module: "math" },
        StdFunction { english: "max", arabic: "أكبر", module: "math" },
        StdFunction { english: "min", arabic: "أصغر", module: "math" },
        StdFunction { english: "length", arabic: "طول", module: "text" },
        StdFunction { english: "empty", arabic: "فارغ", module: "text" },
        StdFunction { english: "version", arabic: "إصدار", module: "system" },
    ];
    assert(forall|i: int| 0 <= i < v@.len() ==> entry(#[trigger] v@[i]) == std_entries()[i]);
    v
}

/// The library function called `name` in English or in Arabic.
pub fn find(name: &str) -> (r: Option<StdFunction>)
    ensures
        match first_named(std_entries(), name@, 0) {
            Some(i) => r is Some && entry(r->0) == std_entries()[i],
            None => r is None,
        },
{
    let fs = functions();
    let mut i: usize = 0;
    while i < fs.len()
        invariant
            i <= fs@.len() == std_entries().len(),
            forall|k: int| 0 <= k < fs@.len() ==> entry(#[trigger] fs@[k]) == std_entries()[k],
            first_named(std_entries(), name@, i as int) == first_named(std_entries(), name@, 0),
        decreases fs@.len() - i,
    {
        let f = fs[i];
        assert(entry(fs@[i as int]) == std_entries()[i as int]);
        if str_eq(f.english, name) || str_eq(f.arabic, name) {
            return Some(f);
        }
        i = i + 1;
    }
    None
}

/// Every library function is found under its English name and under its
/// Arabic name, and both lookups give that same function.
pub proof fn lemma_found_by_both_names(i: int)
    requires
        0 <= i < std_entries().len(),
    ensures
        first_named(std_entries(), std_entries()[i].0, 0) == Some(i),
        first_named(std_entries(), std_entries()[i].1, 0) == Some(i),
{
    reveal_strlit("abs");
    reveal_strlit("مطلق");
    reveal_strlit("max");
    reveal_strlit("أكبر");
    reveal_strlit("min");
    reveal_strlit("أصغر");
    reveal_strlit("length");
    reveal_strlit("طول");
    reveal_strlit("empty");
    reveal_strlit("فارغ");
    reveal_strlit("version");
    reveal_strlit("إصدار");
    let e = std_entries();
    assert(e[0].0[0] == 'a');
    assert(e[0].0[1] == 'b');
    assert(e[0].1[0] == 'م');
    assert(e[0].1[1] == 'ط');
    assert(e[1].0[0] == 'm');
    assert(e[1].0[1] == 'a');
    assert(e[1].1[0] == 'أ');
    assert(e[1].1[1] == 'ك');
    assert(e[2].0[0] == 'm');
    assert(e[2].0[1] == 'i');
    assert(e[2].1[0] == 'أ');
    assert(e[2].1[1] == 'ص');
    assert(e[3].0[0] == 'l');
    assert(e[3].0[1] == 'e');
    assert(e[3].1[0] == 'ط');
    assert(e[3].1[1] == 'و');
    assert(e[4].0[0] == 'e');
    assert(e[4].0[1] == 'm');
    assert(e[4].1[0] == 'ف');
    assert(e[4].1[1] == 'ا');
    assert(e[5].0[0] == 'v');
    assert(e[5].0[1] == 'e');
    assert(e[5].1[0] == 'إ');
    assert(e[5].1[1] == 'ص');
    if i == 1 {
        assert(!named(e[0], e[1].0) && !named(e[0], e[1].1));
    } else if i == 2 {
        assert(!named(e[0], e[2].0) && !named(e[0], e[2].1));
        assert(!named(e[1], e[2].0) && !named(e[1], e[2].1));
    } else if i == 3 {
        assert(!named(e[0], e[3].0) && !named(e[0], e[3].1));
        assert(!named(e[1], e[3].0) && !named(e[1], e[3].1));
        assert(!named(e[2], e[3].0) && !named(e[2], e[3].1));
    } else if i == 4 {
        assert(!named(e[0], e[4].0) && !named(e[0], e[4].1));
        assert(!named(e[1], e[4].0) && !named(e[1], e[4].1));
        assert(!named(e[2], e[4].0) && !named(e[2], e[4].1));
        assert(!named(e[3], e[4].0) && !named(e[3], e[4].1));
    } else if i == 5 {
        assert(!named(e[0], e[5].0) && !named(e[0], e[5].1));
        assert(!named(e[1], e[5].0) && !named(e[1], e[5].1));
        assert(!named(e[2], e[5].0) && !named(e[2], e[5].1));
        assert(!named(e[3], e[5].0) && !named(e[3], e[5].1));
        assert(!named(e[4], e[5].0) && !named(e[4], e[5].1));
    }
    assert(forall|j: int| 0 <= j < i ==> !named(#[trigger] e[j], e[i].0));
    assert(forall|j: int| 0 <= j < i ==> !named(#[trigger] e[j], e[i].1));
    lemma_first_named_at(e, e[i].0, i);
    lemma_first_named_at(e, e[i].1, i);
}

proof fn lemma_first_named_at(
    es: Seq<(Seq<char>, Seq<char>, Seq<char>)>,
    name: Seq<char>,
    i: int,
)
    requires
        0 <= i < es.len(),
        named(es[i], name),
        forall|j: int| 0 <= j < i ==> !named(#[trigger] es[j], name),
    ensures
        first_named(es, name, 0) == Some(i),
{
    lemma_first_named_from(es, name, 0, i);
}

proof fn lemma_first_named_from(
    es: Seq<(Seq<char>, Seq<char>, Seq<char>)>,
    name: Seq<char>,
    from: int,
    i: int,
)
    requires
        0 <= from <= i < es.len(),
        named(es[i], name),
        forall|j: int| from <= j < i ==> !named(#[trigger] es[j], name),
    ensures
        first_named(es, name, from) == Some(i),
    decreases i - from,
{
    if from < i {
        assert(!named(es[from], name));
        lemma_first_named_from(es, name, from + 1, i);
    }
}

} // verus!
