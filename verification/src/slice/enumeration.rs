use vstd::prelude::*;

use crate::errors::Error;
use crate::slice::names::{class_case, to_class_case};
use crate::slice::parser::{Pair, ParsedObject, Rule};
use crate::slice::writer::{indented, texts, to_bytes_text, write_line, write_to_bytes};
use crate::text::{decimal_i32, decimal_string, decimal_text, parse_i32};

verus! {

/// A slice enumeration: a name and named values.
#[derive(Clone, Debug)]
pub struct Enum {
    pub name: String,
    variants: Vec<(String, i32)>,
    next_value: i32,
}

/// An enumeration as a value: its name, its variants in declaration order with their
/// values, and the value the next variant without one of its own takes.
pub struct EnumView {
    pub name: Seq<char>,
    pub variants: Seq<(Seq<char>, i32)>,
    pub next_value: i32,
}

/// Variants as values.
pub open spec fn variants_view(variants: Seq<(String, i32)>) -> Seq<(Seq<char>, i32)> {
    variants.map_values(|v: (String, i32)| (v.0@, v.1))
}

impl View for Enum {
    type V = EnumView;

    closed spec fn view(&self) -> EnumView {
        EnumView {
            name: self.name@,
            variants: variants_view(self.variants@),
            next_value: self.next_value,
        }
    }
}

/// The value a variant takes: the one given, else the one after the previous variant.
pub open spec fn variant_value(next_value: i32, value: Option<i32>) -> i32 {
    match value {
        Some(v) => v,
        None => next_value,
    }
}

/// The enumeration with one more variant, or `None` when the variant's value leaves
/// no value after it.
pub open spec fn with_variant(e: EnumView, id: Seq<char>, value: Option<i32>) -> Option<EnumView> {
    let v = variant_value(e.next_value, value);
    if v < i32::MAX {
        Some(
            EnumView {
                name: e.name,
                variants: e.variants.push((id, v)),
                next_value: (v + 1) as i32,
            },
        )
    } else {
        None
    }
}

/// What reading a variant's line leaves: its name and its value, when given.
pub type VariantLine = (Seq<char>, Option<i32>);

/// Reads the nodes of a variant's line, left to right: a name and a decimal value.
pub open spec fn variant_line(state: VariantLine, items: Seq<Pair>) -> Option<VariantLine>
    decreases items.len(),
{
    if items.len() == 0 {
        Some(state)
    } else {
        let item = items[0];
        let next = match item.rule {
            Rule::identifier => Some((item.text@, state.1)),
            Rule::numeric_value => match decimal_i32(item.text@) {
                Some(n) => Some((state.0, Some(n))),
                None => None,
            },
            _ => None,
        };
        match next {
            Some(n) => variant_line(n, items.drop_first()),
            None => None,
        }
    }
}

/// Reads the variant lines of an enumeration, left to right, into `e`.
pub open spec fn variant_lines(e: EnumView, lines: Seq<Pair>) -> Option<EnumView>
    decreases lines.len(),
{
    if lines.len() == 0 {
        Some(e)
    } else {
        let line = lines[0];
        let next = match line.rule {
            Rule::enum_line => match variant_line((Seq::empty(), None), line.inner@) {
                Some(v) => with_variant(e, v.0, v.1),
                None => None,
            },
            _ => None,
        };
        match next {
            Some(n) => variant_lines(n, lines.drop_first()),
            None => None,
        }
    }
}

/// Reads the nodes of an enumeration's block, left to right, into `e`.
pub open spec fn enum_nodes(e: EnumView, pairs: Seq<Pair>) -> Option<EnumView>
    decreases pairs.len(),
{
    if pairs.len() == 0 {
        Some(e)
    } else {
        let child = pairs[0];
        let next = match child.rule {
            Rule::keyword_enum | Rule::block_open | Rule::block_close => Some(e),
            Rule::identifier => Some(
                EnumView { name: child.text@, variants: e.variants, next_value: e.next_value },
            ),
            Rule::enum_lines => variant_lines(e, child.inner@),
            _ => None,
        };
        match next {
            Some(n) => enum_nodes(n, pairs.drop_first()),
            None => None,
        }
    }
}

/// The enumeration a block's nodes declare, or `None` where they are refused.
pub open spec fn enum_of(pairs: Seq<Pair>) -> Option<EnumView> {
    enum_nodes(EnumView { name: Seq::empty(), variants: Seq::empty(), next_value: 0 }, pairs)
}

/// The variants of a generated Rust enumeration, one line each.
pub open spec fn variants_text(variants: Seq<(Seq<char>, i32)>) -> Seq<char>
    decreases variants.len(),
{
    if variants.len() == 0 {
        Seq::empty()
    } else {
        let v = variants.last();
        variants_text(variants.drop_last()) + indented(
            class_case(v.0) + " = "@ + decimal_text(v.1 as int) + ",\n"@,
            1,
        )
    }
}

/// The Rust source generated for an enumeration: a `#[repr(i32)]` enum with its
/// variants' values, encoded as a size, and decoded back, refusing an unknown value.
pub open spec fn enum_text(e: EnumView) -> Seq<char> {
    let cn = class_case(e.name);
    indented("#[derive(Debug, Copy, Clone, TryFromPrimitive, PartialEq)]\n"@, 0) + indented(
        "#[repr(i32)]\n"@,
        0,
    ) + indented("pub enum "@ + cn + " {\n"@, 0) + variants_text(e.variants) + indented(
        "}\n\n"@,
        0,
    ) + to_bytes_text(cn, seq!["bytes.extend(IceSize{size: *self as i32}.to_bytes()?);\n"@])
        + indented("impl FromBytes for "@ + cn + " {\n"@, 0) + indented(
        "fn from_bytes(bytes: &[u8], read_bytes: &mut i32) -> Result<Self, Box<dyn std::error::Error>> {\n"@,
        1,
    ) + indented("let mut read = 0;\n"@, 2) + indented(
        "let enum_value =  IceSize::from_bytes(&bytes[read as usize..bytes.len()], &mut read)?.size;\n"@,
        2,
    ) + indented("*read_bytes = *read_bytes + read;\n\n"@, 2) + indented(
        "match "@ + cn + "::try_from(enum_value) {\n"@,
        2,
    ) + indented("Ok(enum_type) => Ok(enum_type),\n"@, 3) + indented(
        "_ => Err(Box::new(ProtocolError {}))\n"@,
        3,
    ) + indented("}\n"@, 2) + indented("}\n}\n\n"@, 1)
}

impl Enum {
    /// An enumeration with no name and no variants.
    pub fn empty() -> (e: Enum)
        ensures
            e@ == (EnumView { name: Seq::empty(), variants: Seq::empty(), next_value: 0 }),
    {
        let e = Enum { name: String::new(), variants: Vec::new(), next_value: 0 };
        assert(variants_view(e.variants@) =~= Seq::empty());
        e
    }

    /// An enumeration with the given name and no variants.
    pub fn new(name: &str) -> (e: Enum)
        ensures
            e@ == (EnumView { name: name@, variants: Seq::empty(), next_value: 0 }),
    {
        let e = Enum { name: name.to_owned(), variants: Vec::new(), next_value: 0 };
        assert(variants_view(e.variants@) =~= Seq::empty());
        e
    }

    /// The name of the generated Rust type.
    pub fn class_name(&self) -> (s: String)
        ensures
            s@ == class_case(self@.name),
    {
        to_class_case(self.name.as_str())
    }

    /// The Rust source generated for this enumeration.
    #[verifier::spinoff_prover]
    pub fn generate(&self) -> (text: String)
        ensures
            text@ == enum_text(self@),
    {
        let cn = self.class_name();
        let mut out = String::new();
        write_line(&mut out, "#[derive(Debug, Copy, Clone, TryFromPrimitive, PartialEq)]\n", 0);
        assert(Seq::<char>::empty() + indented(
            "#[derive(Debug, Copy, Clone, TryFromPrimitive, PartialEq)]\n"@,
            0,
        ) =~= indented("#[derive(Debug, Copy, Clone, TryFromPrimitive, PartialEq)]\n"@, 0));
        write_line(&mut out, "#[repr(i32)]\n", 0);
        let mut head = "pub enum ".to_owned();
        head.append(cn.as_str());
        head.append(" {\n");
        write_line(&mut out, head.as_str(), 0);
        let ghost prefix = out@;
        let mut k: usize = 0;
        while k < self.variants.len()
            invariant
                0 <= k <= self.variants@.len(),
                out@ == prefix + variants_text(variants_view(self.variants@).subrange(0, k as int)),
            decreases self.variants@.len() - k,
        {
            let ghost done = variants_view(self.variants@).subrange(0, k as int);
            assert(variants_view(self.variants@).subrange(0, k + 1).drop_last() =~= done);
            let mut line = to_class_case(self.variants[k].0.as_str());
            line.append(" = ");
            let value = decimal_string(self.variants[k].1);
            line.append(value.as_str());
            line.append(",\n");
            write_line(&mut out, line.as_str(), 1);
            assert(prefix + variants_text(done) + indented(line@, 1) =~= prefix + (variants_text(
                done,
            ) + indented(line@, 1)));
            k = k + 1;
        }
        assert(variants_view(self.variants@).subrange(0, k as int) =~= variants_view(
            self.variants@,
        ));
        write_line(&mut out, "}\n\n", 0);
        let mut lines: Vec<String> = Vec::new();
        lines.push("bytes.extend(IceSize{size: *self as i32}.to_bytes()?);\n".to_owned());
        assert(texts(lines@) =~= seq!["bytes.extend(IceSize{size: *self as i32}.to_bytes()?);\n"@]);
        write_to_bytes(&mut out, cn.as_str(), &lines);
        let mut from_head = "impl FromBytes for ".to_owned();
        from_head.append(cn.as_str());
        from_head.append(" {\n");
        write_line(&mut out, from_head.as_str(), 0);
        write_line(
            &mut out,
            "fn from_bytes(bytes: &[u8], read_bytes: &mut i32) -> Result<Self, Box<dyn std::error::Error>> {\n",
            1,
        );
        write_line(&mut out, "let mut read = 0;\n", 2);
        write_line(
            &mut out,
            "let enum_value =  IceSize::from_bytes(&bytes[read as usize..bytes.len()], &mut read)?.size;\n",
            2,
        );
        write_line(&mut out, "*read_bytes = *read_bytes + read;\n\n", 2);
        let mut matcher = "match ".to_owned();
        matcher.append(cn.as_str());
        matcher.append("::try_from(enum_value) {\n");
        write_line(&mut out, matcher.as_str(), 2);
        write_line(&mut out, "Ok(enum_type) => Ok(enum_type),\n", 3);
        write_line(&mut out, "_ => Err(Box::new(ProtocolError {}))\n", 3);
        write_line(&mut out, "}\n", 2);
        write_line(&mut out, "}\n}\n\n", 1);
        out
    }

    /// Appends a variant; without an explicit value it takes the one after the
    /// previous variant's.
    pub fn add_variant(&mut self, name: &str, value: Option<i32>)
        requires
            variant_value(old(self)@.next_value, value) < i32::MAX,
        ensures
            Some(final(self)@) == with_variant(old(self)@, name@, value),
    {
        let value = match value {
            Some(value) => {
                self.next_value = value + 1;
                value
            },
            None => {
                let value = self.next_value;
                self.next_value = value + 1;
                value
            },
        };
        self.variants.push((name.to_owned(), value));
        proof {
            assert(variants_view(self.variants@) =~= variants_view(old(self).variants@).push(
                (name@, value),
            ));
        }
    }
}

impl ParsedObject for Enum {
    /// Reads an enumeration from the nodes of its block: its name, then its variants,
    /// each with an optional decimal value.  A variant valued `i32::MAX` is refused, as no
    /// value is left for the next one.
    #[verifier::spinoff_prover]
    fn parse(pairs: &[Pair]) -> (r: Result<Enum, Error>)
        ensures
            r is Ok <==> enum_of(pairs@) is Some,
            r matches Ok(e) ==> enum_of(pairs@) == Some(e@),
            r is Err ==> r == Err::<Enum, Error>(Error::ParsingError),
    {
        let mut enumeration = Enum::empty();
        assert(pairs@.subrange(0, pairs@.len() as int) =~= pairs@);
        let mut i: usize = 0;
        while i < pairs.len()
            invariant
                0 <= i <= pairs@.len(),
                enum_of(pairs@) == enum_nodes(
                    enumeration@,
                    pairs@.subrange(i as int, pairs@.len() as int),
                ),
            decreases pairs@.len() - i,
        {
            let ghost rest = pairs@.subrange(i as int, pairs@.len() as int);
            assert(rest.drop_first() =~= pairs@.subrange(i + 1, pairs@.len() as int));
            let child = &pairs[i];
            match child.rule {
                Rule::keyword_enum | Rule::block_open | Rule::block_close => {},
                Rule::identifier => {
                    enumeration.name = child.text.clone();
                },
                Rule::enum_lines => {
                    let ghost start = enumeration@;
                    assert(child.inner@.subrange(0, child.inner@.len() as int) =~= child.inner@);
                    let mut j: usize = 0;
                    while j < child.inner.len()
                        invariant
                            0 <= j <= child.inner@.len(),
                            i < pairs@.len(),
                            *child == pairs@[i as int],
                            child.rule == Rule::enum_lines,
                            enum_of(pairs@) == enum_nodes(
                                start,
                                pairs@.subrange(i as int, pairs@.len() as int),
                            ),
                            variant_lines(start, child.inner@) == variant_lines(
                                enumeration@,
                                child.inner@.subrange(j as int, child.inner@.len() as int),
                            ),
                        decreases child.inner@.len() - j,
                    {
                        let ghost lines = child.inner@.subrange(
                            j as int,
                            child.inner@.len() as int,
                        );
                        assert(lines.drop_first() =~= child.inner@.subrange(
                            j + 1,
                            child.inner@.len() as int,
                        ));
                        let line = &child.inner[j];
                        match line.rule {
                            Rule::enum_line => {
                                let mut id = String::new();
                                let mut value: Option<i32> = None;
                                assert(line.inner@.subrange(0, line.inner@.len() as int)
                                    =~= line.inner@);
                                let mut k: usize = 0;
                                while k < line.inner.len()
                                    invariant
                                        0 <= k <= line.inner@.len(),
                                        i < pairs@.len(),
                                        *child == pairs@[i as int],
                                        child.rule == Rule::enum_lines,
                                        enum_of(pairs@) == enum_nodes(
                                            start,
                                            pairs@.subrange(i as int, pairs@.len() as int),
                                        ),
                                        j < child.inner@.len(),
                                        *line == child.inner@[j as int],
                                        line.rule == Rule::enum_line,
                                        variant_lines(start, child.inner@) == variant_lines(
                                            enumeration@,
                                            child.inner@.subrange(
                                                j as int,
                                                child.inner@.len() as int,
                                            ),
                                        ),
                                        variant_line((Seq::empty(), None), line.inner@)
                                            == variant_line(
                                            (id@, value),
                                            line.inner@.subrange(
                                                k as int,
                                                line.inner@.len() as int,
                                            ),
                                        ),
                                    decreases line.inner@.len() - k,
                                {
                                    let ghost items = line.inner@.subrange(
                                        k as int,
                                        line.inner@.len() as int,
                                    );
                                    assert(items.drop_first() =~= line.inner@.subrange(
                                        k + 1,
                                        line.inner@.len() as int,
                                    ));
                                    let item = &line.inner[k];
                                    match item.rule {
                                        Rule::identifier => {
                                            id = item.text.clone();
                                        },
                                        Rule::numeric_value => {
                                            match parse_i32(item.text.as_str()) {
                                                Some(n) => {
                                                    value = Some(n);
                                                },
                                                None => {
                                                    return Err(Error::ParsingError);
                                                },
                                            }
                                        },
                                        _ => {
                                            return Err(Error::ParsingError);
                                        },
                                    }
                                    k = k + 1;
                                }
                                assert(line.inner@.subrange(k as int, line.inner@.len() as int)
                                    =~= Seq::<Pair>::empty());
                                let v = match value {
                                    Some(v) => v,
                                    None => enumeration.next_value,
                                };
                                if v == i32::MAX {
                                    return Err(Error::ParsingError);
                                }
                                enumeration.add_variant(id.as_str(), value);
                            },
                            _ => {
                                return Err(Error::ParsingError);
                            },
                        }
                        j = j + 1;
                    }
                    assert(child.inner@.subrange(j as int, child.inner@.len() as int) =~= Seq::<
                        Pair,
                    >::empty());
                },
                _ => {
                    return Err(Error::ParsingError);
                },
            }
            i = i + 1;
        }
        assert(pairs@.subrange(i as int, pairs@.len() as int) =~= Seq::<Pair>::empty());
        Ok(enumeration)
    }
}

/// The variants are generated in the order they are declared: the text for `a + b` is the text for `a` followed by the text for `b`.
pub proof fn lemma_variants_text_in_order(a: Seq<(Seq<char>, i32)>, b: Seq<(Seq<char>, i32)>)
    ensures
        variants_text(a + b) == variants_text(a) + variants_text(b),
    decreases b.len(),
{
    if b.len() == 0 {
        assert(a + b =~= a);
        assert(variants_text(a) + Seq::<char>::empty() =~= variants_text(a));
    } else {
        lemma_variants_text_in_order(a, b.drop_last());
        assert((a + b).drop_last() =~= a + b.drop_last());
        assert((a + b).last() == b.last());
        assert(variants_text(a + b) =~= variants_text(a) + variants_text(b));
    }
}

} // verus!
