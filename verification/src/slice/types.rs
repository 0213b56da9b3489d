use vstd::prelude::*;

use crate::errors::Error;
use crate::slice::pattern::{captures, groups_view, regex_captures};
use crate::text::str_eq;

verus! {

/// The types that a slice definition can name.
#[derive(Debug)]
pub enum IceType {
    VoidType,
    BoolType,
    ByteType,
    ShortType,
    IntType,
    LongType,
    FloatType,
    DoubleType,
    StringType,
    SequenceType(Box<IceType>),
    DictType(Box<IceType>, Box<IceType>),
    CustomType(String),
}

/// A slice type as a value: names as characters.
pub enum IceTypeView {
    Void,
    Bool,
    Byte,
    Short,
    Int,
    Long,
    Float,
    Double,
    Str,
    Sequence(Box<IceTypeView>),
    Dict(Box<IceTypeView>, Box<IceTypeView>),
    Custom(Seq<char>),
}

/// The value a slice type stands for.
pub open spec fn type_view(t: IceType) -> IceTypeView
    decreases t,
{
    match t {
        IceType::VoidType => IceTypeView::Void,
        IceType::BoolType => IceTypeView::Bool,
        IceType::ByteType => IceTypeView::Byte,
        IceType::ShortType => IceTypeView::Short,
        IceType::IntType => IceTypeView::Int,
        IceType::LongType => IceTypeView::Long,
        IceType::FloatType => IceTypeView::Float,
        IceType::DoubleType => IceTypeView::Double,
        IceType::StringType => IceTypeView::Str,
        IceType::SequenceType(x) => IceTypeView::Sequence(Box::new(type_view(*x))),
        IceType::DictType(k, v) => IceTypeView::Dict(
            Box::new(type_view(*k)),
            Box::new(type_view(*v)),
        ),
        IceType::CustomType(name) => IceTypeView::Custom(name@),
    }
}

impl View for IceType {
    type V = IceTypeView;

    open spec fn view(&self) -> IceTypeView {
        type_view(*self)
    }
}

impl Clone for IceType {
    fn clone(&self) -> (r: IceType)
        ensures
            r@ == self@,
        decreases self,
    {
        match self {
            IceType::VoidType => IceType::VoidType,
            IceType::BoolType => IceType::BoolType,
            IceType::ByteType => IceType::ByteType,
            IceType::ShortType => IceType::ShortType,
            IceType::IntType => IceType::IntType,
            IceType::LongType => IceType::LongType,
            IceType::FloatType => IceType::FloatType,
            IceType::DoubleType => IceType::DoubleType,
            IceType::StringType => IceType::StringType,
            IceType::SequenceType(t) => IceType::SequenceType(Box::new((**t).clone())),
            IceType::DictType(k, v) => IceType::DictType(
                Box::new((**k).clone()),
                Box::new((**v).clone()),
            ),
            IceType::CustomType(name) => IceType::CustomType(name.clone()),
        }
    }
}

/// The Rust type that stands for a slice type.
pub open spec fn rust_type_text(t: IceTypeView) -> Seq<char>
    decreases t,
{
    match t {
        IceTypeView::Void => "()"@,
        IceTypeView::Bool => "bool"@,
        IceTypeView::Byte => "u8"@,
        IceTypeView::Short => "i16"@,
        IceTypeView::Int => "i32"@,
        IceTypeView::Long => "i64"@,
        IceTypeView::Float => "f32"@,
        IceTypeView::Double => "f64"@,
        IceTypeView::Str => "String"@,
        IceTypeView::Sequence(x) => "Vec<"@ + rust_type_text(*x) + ">"@,
        IceTypeView::Dict(k, v) => "HashMap<"@ + rust_type_text(*k) + ", "@ + rust_type_text(*v)
            + ">"@,
        IceTypeView::Custom(name) => name,
    }
}

/// Named types (members, aliases) as values.
pub open spec fn named_types_view(items: Seq<(String, IceType)>) -> Seq<(Seq<char>, IceTypeView)> {
    items.map_values(|item: (String, IceType)| (item.0@, item.1@))
}

/// Whether values of the type are passed by reference.
pub open spec fn passed_by_ref(t: IceTypeView) -> bool {
    match t {
        IceTypeView::Str | IceTypeView::Sequence(_) | IceTypeView::Dict(_, _)
        | IceTypeView::Custom(_) => true,
        _ => false,
    }
}

/// The pattern a type's text is read with: a keyword, `sequence<..>` or
/// `dictionary<.., ..>`, each in a capture group of its own.
pub const TYPE_PATTERN: &'static str = r#"(?x)
            (void) |
            (bool) |
            (byte) |
            (short) |
            (int) |
            (long) |
            (float) |
            (double) |
            (string) |
            (sequence)<(.+)> |
            (dictionary)<(.+),\s*(.+)> |
            "#;

/// The texts of the groups that took part in a match, group 0 left out.
pub open spec fn matched_groups(groups: Seq<Option<Seq<char>>>) -> Seq<Seq<char>>
    decreases groups.len(),
{
    if groups.len() <= 1 {
        Seq::empty()
    } else {
        let rest = matched_groups(groups.drop_last());
        match groups.last() {
            Some(g) => rest.push(g),
            None => rest,
        }
    }
}

/// What the matched groups of a type's text make of it.
pub enum TypeForm {
    /// A type named by a keyword.
    Simple(IceType),
    /// `sequence<..>` with the element type's text.
    Sequence(String),
    /// `dictionary<.., ..>` with the key and value types' texts.
    Dictionary(String, String),
    /// Anything else: a type declared elsewhere, named by the whole text.
    Custom,
}

/// The value of a `TypeForm`.
pub enum TypeFormView {
    Simple(IceTypeView),
    Sequence(Seq<char>),
    Dictionary(Seq<char>, Seq<char>),
    Custom,
}

impl View for TypeForm {
    type V = TypeFormView;

    open spec fn view(&self) -> TypeFormView {
        match self {
            TypeForm::Simple(t) => TypeFormView::Simple(t@),
            TypeForm::Sequence(x) => TypeFormView::Sequence(x@),
            TypeForm::Dictionary(k, v) => TypeFormView::Dictionary(k@, v@),
            TypeForm::Custom => TypeFormView::Custom,
        }
    }
}

/// The form given by the matched groups: one keyword alone, `sequence` with one
/// text, `dictionary` with two; anything else is a custom type.
pub open spec fn type_form(groups: Seq<Seq<char>>) -> TypeFormView {
    if groups.len() == 1 && groups[0] == "void"@ {
        TypeFormView::Simple(IceTypeView::Void)
    } else if groups.len() == 1 && groups[0] == "bool"@ {
        TypeFormView::Simple(IceTypeView::Bool)
    } else if groups.len() == 1 && groups[0] == "byte"@ {
        TypeFormView::Simple(IceTypeView::Byte)
    } else if groups.len() == 1 && groups[0] == "short"@ {
        TypeFormView::Simple(IceTypeView::Short)
    } else if groups.len() == 1 && groups[0] == "int"@ {
        TypeFormView::Simple(IceTypeView::Int)
    } else if groups.len() == 1 && groups[0] == "long"@ {
        TypeFormView::Simple(IceTypeView::Long)
    } else if groups.len() == 1 && groups[0] == "float"@ {
        TypeFormView::Simple(IceTypeView::Float)
    } else if groups.len() == 1 && groups[0] == "double"@ {
        TypeFormView::Simple(IceTypeView::Double)
    } else if groups.len() == 1 && groups[0] == "string"@ {
        TypeFormView::Simple(IceTypeView::Str)
    } else if groups.len() == 2 && groups[0] == "sequence"@ {
        TypeFormView::Sequence(groups[1])
    } else if groups.len() == 3 && groups[0] == "dictionary"@ {
        TypeFormView::Dictionary(groups[1], groups[2])
    } else {
        TypeFormView::Custom
    }
}

/// The type a text names, or `None` when the type pattern does not compile.
/// A nested type's text is read only when it is shorter than the whole text; every
/// match of the pattern has that shape, and it bounds the nesting.
pub open spec fn type_of_text(text: Seq<char>) -> Option<IceTypeView>
    decreases text.len(),
{
    match regex_captures(TYPE_PATTERN@, text) {
        None => None,
        Some(found) => {
            let groups = match found {
                Some(g) => matched_groups(g),
                None => Seq::empty(),
            };
            match type_form(groups) {
                TypeFormView::Simple(t) => Some(t),
                TypeFormView::Sequence(x) => if x.len() < text.len() {
                    match type_of_text(x) {
                        Some(t) => Some(IceTypeView::Sequence(Box::new(t))),
                        None => None,
                    }
                } else {
                    Some(IceTypeView::Custom(text))
                },
                TypeFormView::Dictionary(k, v) => if k.len() < text.len() && v.len()
                    < text.len() {
                    match (type_of_text(k), type_of_text(v)) {
                        (Some(kt), Some(vt)) => Some(IceTypeView::Dict(Box::new(kt), Box::new(vt))),
                        _ => None,
                    }
                } else {
                    Some(IceTypeView::Custom(text))
                },
                TypeFormView::Custom => Some(IceTypeView::Custom(text)),
            }
        },
    }
}

/// The texts of the groups that took part in a match, group 0 left out.
fn present_groups(groups: &Vec<Option<String>>) -> (r: Vec<String>)
    ensures
        r@.map_values(|s: String| s@) == matched_groups(groups_view(groups@)),
{
    let mut r: Vec<String> = Vec::new();
    if groups.len() <= 1 {
        return r;
    }
    let mut i: usize = 1;
    while i < groups.len()
        invariant
            1 <= i <= groups@.len(),
            r@.map_values(|s: String| s@) == matched_groups(
                groups_view(groups@).subrange(0, i as int),
            ),
        decreases groups@.len() - i,
    {
        let ghost before = groups_view(groups@).subrange(0, i as int);
        let ghost after = groups_view(groups@).subrange(0, i + 1);
        assert(after.drop_last() == before);
        match &groups[i] {
            Some(g) => {
                r.push(g.clone());
            },
            None => {},
        }
        i = i + 1;
    }
    assert(groups_view(groups@).subrange(0, groups@.len() as int) == groups_view(groups@));
    r
}

/// Reads the form of a type from the matched groups of its text.
pub fn classify_groups(groups: &Vec<String>) -> (f: TypeForm)
    ensures
        f@ == type_form(groups@.map_values(|s: String| s@)),
{
    let ghost g = groups@.map_values(|s: String| s@);
    if groups.len() == 1 {
        let word = groups[0].as_str();
        if str_eq(word, "void") {
            return TypeForm::Simple(IceType::VoidType);
        } else if str_eq(word, "bool") {
            return TypeForm::Simple(IceType::BoolType);
        } else if str_eq(word, "byte") {
            return TypeForm::Simple(IceType::ByteType);
        } else if str_eq(word, "short") {
            return TypeForm::Simple(IceType::ShortType);
        } else if str_eq(word, "int") {
            return TypeForm::Simple(IceType::IntType);
        } else if str_eq(word, "long") {
            return TypeForm::Simple(IceType::LongType);
        } else if str_eq(word, "float") {
            return TypeForm::Simple(IceType::FloatType);
        } else if str_eq(word, "double") {
            return TypeForm::Simple(IceType::DoubleType);
        } else if str_eq(word, "string") {
            return TypeForm::Simple(IceType::StringType);
        }
        return TypeForm::Custom;
    }
    if groups.len() == 2 && str_eq(groups[0].as_str(), "sequence") {
        return TypeForm::Sequence(groups[1].clone());
    }
    if groups.len() == 3 && str_eq(groups[0].as_str(), "dictionary") {
        return TypeForm::Dictionary(groups[1].clone(), groups[2].clone());
    }
    TypeForm::Custom
}

impl IceType {
    /// Reads a slice type from its text: a keyword, `sequence<T>` or
    /// `dictionary<K, V>` (nested types read the same way), else a type declared
    /// elsewhere, named by the text.  Fails only when the type pattern does not
    /// compile.
    pub fn from(text: &str) -> (r: Result<IceType, Error>)
        ensures
            r is Ok <==> type_of_text(text@) is Some,
            r matches Ok(t) ==> type_of_text(text@) == Some(t@),
            r is Err ==> r == Err::<IceType, Error>(Error::ParsingError),
        decreases text@.len(),
    {
        let found = match captures(TYPE_PATTERN, text) {
            Ok(found) => found,
            Err(_) => {
                return Err(Error::ParsingError);
            },
        };
        let groups = match &found {
            Some(g) => present_groups(g),
            None => Vec::new(),
        };
        proof {
            assert(groups@.map_values(|s: String| s@) =~= match found {
                Some(g) => matched_groups(groups_view(g@)),
                None => Seq::empty(),
            });
        }
        match classify_groups(&groups) {
            TypeForm::Simple(t) => Ok(t),
            TypeForm::Sequence(x) => {
                if x.unicode_len() < text.unicode_len() {
                    let inner = IceType::from(x.as_str())?;
                    Ok(IceType::SequenceType(Box::new(inner)))
                } else {
                    Ok(IceType::CustomType(text.to_owned()))
                }
            },
            TypeForm::Dictionary(k, v) => {
                if k.unicode_len() < text.unicode_len() && v.unicode_len() < text.unicode_len() {
                    let key = IceType::from(k.as_str())?;
                    let value = IceType::from(v.as_str())?;
                    Ok(IceType::DictType(Box::new(key), Box::new(value)))
                } else {
                    Ok(IceType::CustomType(text.to_owned()))
                }
            },
            TypeForm::Custom => Ok(IceType::CustomType(text.to_owned())),
        }
    }

    /// The Rust type that stands for this slice type.
    pub fn rust_type(&self) -> (s: String)
        ensures
            s@ == rust_type_text(self@),
        decreases self,
    {
        match self {
            IceType::VoidType => "()".to_owned(),
            IceType::BoolType => "bool".to_owned(),
            IceType::ByteType => "u8".to_owned(),
            IceType::ShortType => "i16".to_owned(),
            IceType::IntType => "i32".to_owned(),
            IceType::LongType => "i64".to_owned(),
            IceType::FloatType => "f32".to_owned(),
            IceType::DoubleType => "f64".to_owned(),
            IceType::StringType => "String".to_owned(),
            IceType::SequenceType(inner_type) => {
                let mut s = "Vec<".to_owned();
                let inner = inner_type.rust_type();
                s.append(inner.as_str());
                s.append(">");
                s
            },
            IceType::DictType(key_type, value_type) => {
                let mut s = "HashMap<".to_owned();
                let k = key_type.rust_type();
                s.append(k.as_str());
                s.append(", ");
                let v = value_type.rust_type();
                s.append(v.as_str());
                s.append(">");
                s
            },
            IceType::CustomType(name) => name.clone(),
        }
    }

    /// Whether values of this type are passed by reference.
    pub fn as_ref(&self) -> (b: bool)
        ensures
            b == passed_by_ref(self@),
    {
        match self {
            IceType::StringType | IceType::SequenceType(_) | IceType::DictType(_, _)
            | IceType::CustomType(_) => true,
            _ => false,
        }
    }
}

} // verus!
