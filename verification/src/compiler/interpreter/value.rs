use vstd::prelude::*;

verus! {

/// The types of runtime values.
#[derive(Debug, Clone, Copy, PartialEq)]
pub enum Type {
    Number,
    String,
    Boolean,
    Array,
    Function,
    Nil,
}

/// The Arabic name of a type, as shown to the user.
pub open spec fn value_type_name(t: Type) -> Seq<char> {
    match t {
        Type::Number => "رقم"@,
        Type::String => "نص"@,
        Type::Boolean => "منطقي"@,
        Type::Array => "مصفوفة"@,
        Type::Function => "دالة"@,
        Type::Nil => "عدم"@,
    }
}

impl Type {
    /// The Arabic name of the type, as shown to the user.
    pub fn name(&self) -> (r: &'static str)
        ensures
            r@ == value_type_name(*self),
    {
        match self {
            Type::Number => "رقم",
            Type::String => "نص",
            Type::Boolean => "منطقي",
            Type::Array => "مصفوفة",
            Type::Function => "دالة",
            Type::Nil => "عدم",
        }
    }
}

} // verus!
