use vstd::prelude::*;
use crate::chars::{
    append_decimal, append_int, append_str, decimal, int_literal_value, int_text,
    lemma_int_text_reads_back, parse_int, str_eq,
};
use crate::stdlib::{math, system, text};

verus! {

/// Whether `function` is one of two names.
pub open spec fn either(function: Seq<char>, english: Seq<char>, arabic: Seq<char>) -> bool {
    function == english || function == arabic
}

/// What a call of a library function by module and name on textual
/// arguments answers: `math` takes integers (`abs` one, `max` and `min`
/// two), `text` `length` counts the characters of its argument, `system`
/// `version` names the version; anything else, a missing argument or an
/// argument that is not an integer answers nothing.
pub open spec fn call_result(module: Seq<char>, function: Seq<char>, args: Seq<Seq<char>>) -> Option<
    Seq<char>,
> {
    if module == "math"@ && either(function, "abs"@, "مطلق"@) {
        if args.len() < 1 {
            None
        } else {
            match int_literal_value(args[0]) {
                Some(v) => if v > i64::MIN {
                    Some(int_text(if v < 0 { -v } else { v }))
                } else {
                    None
                },
                None => None,
            }
        }
    } else if module == "math"@ && either(function, "max"@, "أكبر"@) {
        if args.len() < 2 {
            None
        } else {
            match (int_literal_value(args[0]), int_literal_value(args[1])) {
                (Some(a), Some(b)) => Some(int_text(if a > b { a } else { b })),
                _ => None,
            }
        }
    } else if module == "math"@ && either(function, "min"@, "أصغر"@) {
        if args.len() < 2 {
            None
        } else {
            match (int_literal_value(args[0]), int_literal_value(args[1])) {
                (Some(a), Some(b)) => Some(int_text(if a < b { a } else { b })),
                _ => None,
            }
        }
    } else if module == "text"@ && either(function, "length"@, "طول"@) {
        if args.len() < 1 {
            None
        } else {
            Some(decimal(args[0].len()))
        }
    } else if module == "system"@ && either(function, "version"@, "إصدار"@) {
        Some("FSL 0.2.3"@)
    } else {
        None
    }
}

/// The values of textual arguments.
pub open spec fn args_view(args: Seq<String>) -> Seq<Seq<char>> {
    args.map_values(|a: String| a@)
}

/// The integer text of `v`.
fn int_string(v: i64) -> (r: String)
    ensures
        r@ == int_text(v as int),
{
    let mut s = String::new();
    append_int(&mut s, v);
    s
}

/// Calls a library function by module and name on textual arguments.
pub fn call(module: &str, function: &str, args: Vec<String>) -> (r: Option<String>)
    ensures
        match r {
            Some(s) => call_result(module@, function@, args_view(args@)) == Some(s@),
            None => call_result(module@, function@, args_view(args@)) is None,
        },
{
    let ghost a = args_view(args@);
    if str_eq(module, "math") && (str_eq(function, "abs") || str_eq(function, "مطلق")) {
        if args.len() < 1 {
            return None;
        }
        assert(a[0] == args@[0]@);
        let value = match parse_int(args[0].as_str()) {
            Some(v) => v,
            None => {
                return None;
            },
        };
        if value == i64::MIN {
            return None;
        }
        return Some(int_string(math::abs(value)));
    }
    if str_eq(module, "math") && (str_eq(function, "max") || str_eq(function, "أكبر")) {
        if args.len() < 2 {
            return None;
        }
        assert(a[0] == args@[0]@ && a[1] == args@[1]@);
        let x = match parse_int(args[0].as_str()) {
            Some(v) => v,
            None => {
                return None;
            },
        };
        let y = match parse_int(args[1].as_str()) {
            Some(v) => v,
            None => {
                return None;
            },
        };
        return Some(int_string(math::max(x, y)));
    }
    if str_eq(module, "math") && (str_eq(function, "min") || str_eq(function, "أصغر")) {
        if args.len() < 2 {
            return None;
        }
        assert(a[0] == args@[0]@ && a[1] == args@[1]@);
        let x = match parse_int(args[0].as_str()) {
            Some(v) => v,
            None => {
                return None;
            },
        };
        let y = match parse_int(args[1].as_str()) {
            Some(v) => v,
            None => {
                return None;
            },
        };
        return Some(int_string(math::min(x, y)));
    }
    if str_eq(module, "text") && (str_eq(function, "length") || str_eq(function, "طول")) {
        if args.len() < 1 {
            return None;
        }
        assert(a[0] == args@[0]@);
        let n = text::length(args[0].as_str());
        let mut s = String::new();
        append_decimal(&mut s, n as u64);
        return Some(s);
    }
    if str_eq(module, "system") && (str_eq(function, "version") || str_eq(function, "إصدار")) {
        let mut s = String::new();
        append_str(&mut s, system::version());
        return Some(s);
    }
    None
}

/// A library function answers alike under its English and its Arabic name;
/// `min` and `max` answer the smaller and the larger of the two integers they
/// read, `abs` the magnitude of the one it reads, each written so that it
/// reads back as that number.
pub proof fn lemma_call_laws(args: Seq<Seq<char>>)
    ensures
        call_result("math"@, "مطلق"@, args) == call_result("math"@, "abs"@, args),
        call_result("math"@, "أكبر"@, args) == call_result("math"@, "max"@, args),
        call_result("math"@, "أصغر"@, args) == call_result("math"@, "min"@, args),
        call_result("text"@, "طول"@, args) == call_result("text"@, "length"@, args),
        call_result("system"@, "إصدار"@, args) == call_result("system"@, "version"@, args),
        args.len() >= 2 ==> match (int_literal_value(args[0]), int_literal_value(args[1])) {
            (Some(a), Some(b)) => {
                &&& call_result("math"@, "min"@, args) matches Some(r) && int_literal_value(r)
                    matches Some(m) && m <= a && m <= b && (m == a || m == b)
                &&& call_result("math"@, "max"@, args) matches Some(r) && int_literal_value(r)
                    matches Some(m) && m >= a && m >= b && (m == a || m == b)
            },
            _ => call_result("math"@, "min"@, args) is None && call_result("math"@, "max"@, args) is None,
        },
        args.len() >= 1 ==> match int_literal_value(args[0]) {
            Some(v) => v > i64::MIN ==> (call_result("math"@, "abs"@, args) matches Some(r)
                && int_literal_value(r) matches Some(m) && m >= 0 && (m == v || m == -v)),
            None => call_result("math"@, "abs"@, args) is None,
        },
{
    reveal_strlit("math");
    reveal_strlit("text");
    reveal_strlit("system");
    reveal_strlit("abs");
    reveal_strlit("مطلق");
    reveal_strlit("max");
    reveal_strlit("أكبر");
    reveal_strlit("min");
    reveal_strlit("أصغر");
    reveal_strlit("length");
    reveal_strlit("طول");
    reveal_strlit("version");
    reveal_strlit("إصدار");
    assert("math"@[0] != "text"@[0] && "math"@[0] != "system"@[0] && "text"@[0] != "system"@[0]);
    assert("abs"@[0] != "max"@[0] && "abs"@[0] != "min"@[0] && "max"@[1] != "min"@[1]);
    assert("مطلق"@[0] != "أكبر"@[0] && "مطلق"@[0] != "أصغر"@[0] && "أكبر"@[1] != "أصغر"@[1]);
    assert("abs"@[0] != "أكبر"@[0] && "abs"@[0] != "أصغر"@[0] && "مطلق"@[0] != "max"@[0]
        && "مطلق"@[0] != "min"@[0] && "max"@[0] != "أصغر"@[0] && "أكبر"@[0] != "min"@[0]);
    assert("length"@[0] != "طول"@[0] && "version"@[0] != "إصدار"@[0]);
    if args.len() >= 2 {
        if let (Some(a), Some(b)) = (int_literal_value(args[0]), int_literal_value(args[1])) {
            lemma_int_text_reads_back(if a < b { a } else { b });
            lemma_int_text_reads_back(if a > b { a } else { b });
        }
    }
    if args.len() >= 1 {
        if let Some(v) = int_literal_value(args[0]) {
            if v > i64::MIN {
                lemma_int_text_reads_back(if v < 0 { -v } else { v });
            }
        }
    }
}

} // verus!
