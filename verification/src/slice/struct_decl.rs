use vstd::prelude::*;

use crate::errors::Error;
use crate::slice::names::{pascal_case, snake_case, to_pascal_case, to_snake_case};
use crate::slice::writer::{
    decode_lines, encapsulation_text, encode_lines, from_bytes_text, indented, member_decode_lines,
    member_encode_lines, to_bytes_text, write_encapsulation, write_from_bytes, write_line,
    write_to_bytes,
};
use crate::slice::parser::{Pair, ParsedObject, Rule};
use crate::slice::types::{named_types_view, rust_type_text, type_of_text, IceType, IceTypeView};

verus! {

/// A slice structure: a name and typed members.
#[derive(Clone, Debug)]
pub struct Struct {
    name: String,
    members: Vec<(String, IceType)>,
}

/// A structure as a value.
pub struct StructView {
    pub name: Seq<char>,
    pub members: Seq<(Seq<char>, IceTypeView)>,
}

impl View for Struct {
    type V = StructView;

    closed spec fn view(&self) -> StructView {
        StructView { name: self.name@, members: named_types_view(self.members@) }
    }
}

/// What reading a member line leaves: the structure so far, and the type and name
/// last read on the line.
pub type MemberLine = (StructView, IceTypeView, Seq<char>);

/// Reads the nodes of a member line, left to right: a type, a name, and the line's end,
/// which appends the member; any other node is refused.
pub open spec fn member_line(state: MemberLine, items: Seq<Pair>) -> Option<MemberLine>
    decreases items.len(),
{
    if items.len() == 0 {
        Some(state)
    } else {
        let item = items[0];
        let (s, t, id) = state;
        let next = match item.rule {
            Rule::typename => match type_of_text(item.text@) {
                Some(t2) => Some((s, t2, id)),
                None => None,
            },
            Rule::identifier => Some((s, t, item.text@)),
            Rule::struct_line_end => Some(
                (StructView { name: s.name, members: s.members.push((id, t)) }, t, id),
            ),
            _ => None,
        };
        match next {
            Some(n) => member_line(n, items.drop_first()),
            None => None,
        }
    }
}

/// Reads the nodes of a structure's block, left to right, into `s`.
pub open spec fn struct_nodes(s: StructView, pairs: Seq<Pair>) -> Option<StructView>
    decreases pairs.len(),
{
    if pairs.len() == 0 {
        Some(s)
    } else {
        let child = pairs[0];
        let next = match child.rule {
            Rule::keyword_struct | Rule::block_open | Rule::block_close => Some(s),
            Rule::identifier => Some(StructView { name: child.text@, members: s.members }),
            Rule::struct_line => match member_line(
                (s, IceTypeView::Void, Seq::empty()),
                child.inner@,
            ) {
                Some(state) => Some(state.0),
                None => None,
            },
            _ => None,
        };
        match next {
            Some(n) => struct_nodes(n, pairs.drop_first()),
            None => None,
        }
    }
}

/// The structure a block's nodes declare, or `None` where they are refused.
pub open spec fn struct_of(pairs: Seq<Pair>) -> Option<StructView> {
    struct_nodes(StructView { name: Seq::empty(), members: Seq::empty() }, pairs)
}

/// The fields of a generated Rust structure, one line each.
pub open spec fn field_lines(members: Seq<(Seq<char>, IceTypeView)>) -> Seq<char>
    decreases members.len(),
{
    if members.len() == 0 {
        Seq::empty()
    } else {
        let m = members.last();
        field_lines(members.drop_last()) + indented(
            "    pub "@ + snake_case(m.0) + ": "@ + rust_type_text(m.1) + ",\n"@,
            0,
        )
    }
}

/// The Rust source generated for a structure: the type, and its byte encoding,
/// decoding and encapsulation.
pub open spec fn struct_text(s: StructView) -> Seq<char> {
    let cn = pascal_case(s.name);
    indented("#[derive(Debug, Copy, Clone, PartialEq)]\n"@, 0) + indented(
        "pub struct "@ + cn + " {\n"@,
        0,
    ) + field_lines(s.members) + indented("}\n\n"@, 0) + to_bytes_text(
        cn,
        encode_lines(s.members),
    ) + from_bytes_text(cn, decode_lines(s.members)) + encapsulation_text(cn)
}

impl Struct {
    /// The Rust source generated for this structure.
    #[verifier::spinoff_prover]
    pub fn write(&self) -> (text: String)
        ensures
            text@ == struct_text(self@),
    {
        let cn = self.class_name();
        let mut out = String::new();
        write_line(&mut out, "#[derive(Debug, Copy, Clone, PartialEq)]\n", 0);
        assert(Seq::<char>::empty() + indented("#[derive(Debug, Copy, Clone, PartialEq)]\n"@, 0)
            =~= indented("#[derive(Debug, Copy, Clone, PartialEq)]\n"@, 0));
        let mut head = "pub struct ".to_owned();
        head.append(cn.as_str());
        head.append(" {\n");
        write_line(&mut out, head.as_str(), 0);
        let ghost prefix = out@;
        let ghost members = named_types_view(self.members@);
        let mut k: usize = 0;
        while k < self.members.len()
            invariant
                0 <= k <= self.members@.len(),
                members == named_types_view(self.members@),
                out@ == prefix + field_lines(members.subrange(0, k as int)),
            decreases self.members@.len() - k,
        {
            let ghost done = members.subrange(0, k as int);
            assert(members.subrange(0, k + 1).drop_last() =~= done);
            let mut line = "    pub ".to_owned();
            let name = to_snake_case(self.members[k].0.as_str());
            line.append(name.as_str());
            line.append(": ");
            let rust = self.members[k].1.rust_type();
            line.append(rust.as_str());
            line.append(",\n");
            write_line(&mut out, line.as_str(), 0);
            assert(prefix + field_lines(done) + indented(line@, 0) =~= prefix + (field_lines(done)
                + indented(line@, 0)));
            k = k + 1;
        }
        assert(members.subrange(0, k as int) =~= members);
        write_line(&mut out, "}\n\n", 0);
        let encode = member_encode_lines(&self.members);
        write_to_bytes(&mut out, cn.as_str(), &encode);
        let decode = member_decode_lines(&self.members);
        write_from_bytes(&mut out, cn.as_str(), &decode);
        write_encapsulation(&mut out, cn.as_str());
        out
    }

    /// A structure with the given name and no members.
    pub fn new(name: &str) -> (s: Struct)
        ensures
            s@ == (StructView { name: name@, members: Seq::empty() }),
    {
        let s = Struct { name: name.to_owned(), members: Vec::new() };
        assert(named_types_view(s.members@) =~= Seq::empty());
        s
    }

    /// Appends a member.
    pub fn add_member(&mut self, name: &str, var_type: IceType)
        ensures
            final(self)@ == (StructView {
                name: old(self)@.name,
                members: old(self)@.members.push((name@, var_type@)),
            }),
    {
        self.members.push((name.to_owned(), var_type));
        proof {
            assert(named_types_view(self.members@) =~= named_types_view(old(self).members@).push(
                (name@, var_type@),
            ));
        }
    }

    /// The name of the generated Rust type.
    pub fn class_name(&self) -> (s: String)
        ensures
            s@ == pascal_case(self@.name),
    {
        to_pascal_case(self.name.as_str())
    }
}

impl ParsedObject for Struct {
    /// Reads a structure from the nodes of its block: its name, then one member per line.
    #[verifier::spinoff_prover]
    fn parse(pairs: &[Pair]) -> (r: Result<Struct, Error>)
        ensures
            r is Ok <==> struct_of(pairs@) is Some,
            r matches Ok(s) ==> struct_of(pairs@) == Some(s@),
            r is Err ==> r == Err::<Struct, Error>(Error::ParsingError),
    {
        let mut structure = Struct::new("");
        proof {
            reveal_strlit("");
            assert(""@ =~= Seq::<char>::empty());
        }
        assert(pairs@.subrange(0, pairs@.len() as int) =~= pairs@);
        let mut i: usize = 0;
        while i < pairs.len()
            invariant
                0 <= i <= pairs@.len(),
                struct_of(pairs@) == struct_nodes(structure@, pairs@.subrange(i as int, pairs@.len() as int)),
            decreases pairs@.len() - i,
        {
            let ghost rest = pairs@.subrange(i as int, pairs@.len() as int);
            assert(rest.drop_first() =~= pairs@.subrange(i + 1, pairs@.len() as int));
            let child = &pairs[i];
            match child.rule {
                Rule::keyword_struct | Rule::block_open | Rule::block_close => {},
                Rule::identifier => {
                    structure.name = child.text.clone();
                },
                Rule::struct_line => {
                    let mut typename = IceType::VoidType;
                    let mut id = String::new();
                    let ghost start = structure@;
                    assert(child.inner@.subrange(0, child.inner@.len() as int) =~= child.inner@);
                    let mut j: usize = 0;
                    while j < child.inner.len()
                        invariant
                            0 <= j <= child.inner@.len(),
                            i < pairs@.len(),
                            *child == pairs@[i as int],
                            child.rule == Rule::struct_line,
                            struct_of(pairs@) == struct_nodes(
                                start,
                                pairs@.subrange(i as int, pairs@.len() as int),
                            ),
                            member_line((start, IceTypeView::Void, Seq::empty()), child.inner@)
                                == member_line(
                                (structure@, typename@, id@),
                                child.inner@.subrange(j as int, child.inner@.len() as int),
                            ),
                        decreases child.inner@.len() - j,
                    {
                        let ghost items = child.inner@.subrange(j as int, child.inner@.len() as int);
                        assert(items.drop_first() =~= child.inner@.subrange(
                            j + 1,
                            child.inner@.len() as int,
                        ));
                        let item = &child.inner[j];
                        match item.rule {
                            Rule::typename => {
                                match IceType::from(item.text.as_str()) {
                                    Ok(t) => {
                                        typename = t;
                                    },
                                    Err(e) => {
                                        return Err(e);
                                    },
                                }
                            },
                            Rule::identifier => {
                                id = item.text.clone();
                            },
                            Rule::struct_line_end => {
                                structure.add_member(id.as_str(), typename.clone());
                            },
                            _ => {
                                return Err(Error::ParsingError);
                            },
                        }
                        j = j + 1;
                    }
                    assert(child.inner@.subrange(j as int, child.inner@.len() as int) =~= Seq::<
                        Pair,
                    >::empty());
                },
                _ => {
                    return Err(Error::ParsingError);
                },
            }
            i = i + 1;
        }
        assert(pairs@.subrange(i as int, pairs@.len() as int) =~= Seq::<Pair>::empty());
        Ok(structure)
    }
}

/// The fields of a structure are generated in the order its members are declared: the text for `a + b` is the text for `a` followed by the text for `b`.
pub proof fn lemma_field_lines_in_order(a: Seq<(Seq<char>, IceTypeView)>, b: Seq<(Seq<char>, IceTypeView)>)
    ensures
        field_lines(a + b) == field_lines(a) + field_lines(b),
    decreases b.len(),
{
    if b.len() == 0 {
        assert(a + b =~= a);
        assert(field_lines(a) + Seq::<char>::empty() =~= field_lines(a));
    } else {
        lemma_field_lines_in_order(a, b.drop_last());
        assert((a + b).drop_last() =~= a + b.drop_last());
        assert((a + b).last() == b.last());
        assert(field_lines(a + b) =~= field_lines(a) + field_lines(b));
    }
}

} // verus!
