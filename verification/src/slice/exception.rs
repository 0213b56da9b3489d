use vstd::prelude::*;

use crate::slice::names::{pascal_case, snake_case, to_pascal_case, to_snake_case};
use crate::slice::types::{named_types_view, rust_type_text, IceType, IceTypeView};
use crate::slice::writer::{
    decode_lines, encode_lines, from_bytes_text, indented, member_decode_lines,
    member_encode_lines, texts, to_bytes_text, write_from_bytes, write_line, write_to_bytes,
};

verus! {

/// A slice exception: a name, an optional base, and typed members.
#[derive(Clone, Debug)]
pub struct Exception {
    pub name: String,
    pub extends: Option<IceType>,
    members: Vec<(String, IceType)>,
}

/// An exception as a value.
pub struct ExceptionView {
    pub name: Seq<char>,
    pub extends: Option<IceTypeView>,
    pub members: Seq<(Seq<char>, IceTypeView)>,
}

impl View for Exception {
    type V = ExceptionView;

    closed spec fn view(&self) -> ExceptionView {
        ExceptionView {
            name: self.name@,
            extends: match self.extends {
                Some(t) => Some(t@),
                None => None,
            },
            members: named_types_view(self.members@),
        }
    }
}

/// The fields of a generated exception type, one line each.
pub open spec fn exception_fields(members: Seq<(Seq<char>, IceTypeView)>) -> Seq<char>
    decreases members.len(),
{
    if members.len() == 0 {
        Seq::empty()
    } else {
        let m = members.last();
        exception_fields(members.drop_last()) + indented(
            "pub "@ + snake_case(m.0) + ": "@ + rust_type_text(m.1) + ",\n"@,
            1,
        )
    }
}

/// The field that holds the base exception, when there is one.
pub open spec fn base_field(extends: Option<IceTypeView>) -> Seq<char> {
    match extends {
        Some(t) => indented("pub extends: "@ + rust_type_text(t) + ",\n"@, 1),
        None => Seq::empty(),
    }
}

/// The lines that decode an exception: its members, then its base when there is one.
pub open spec fn exception_decode_lines(e: ExceptionView) -> Seq<Seq<char>> {
    match e.extends {
        Some(t) => decode_lines(e.members).push(
            "extends:  "@ + rust_type_text(t)
                + "::from_bytes(&bytes[read as usize..bytes.len()], &mut read)?,\n"@,
        ),
        None => decode_lines(e.members),
    }
}

/// The Rust source generated for an exception: the type, `Display` and `Error` for it,
/// and its byte encoding and decoding.
pub open spec fn exception_text(e: ExceptionView) -> Seq<char> {
    let cn = pascal_case(e.name);
    indented("#[derive(Debug)]\n"@, 0) + indented("pub struct "@ + cn + " {\n"@, 0)
        + exception_fields(e.members) + base_field(e.extends) + indented("}\n\n"@, 0) + indented(
        "impl std::fmt::Display for "@ + cn + " {\n"@,
        0,
    ) + indented(
        "fn fmt(&self, f: &mut std::fmt::Formatter<'_>) -> std::fmt::Result {\n"@,
        1,
    ) + indented("write!(f, \""@ + cn + "\")\n"@, 2) + indented("}\n}\n\n"@, 1) + indented(
        "impl std::error::Error for "@ + cn + " {}\n\n"@,
        0,
    ) + to_bytes_text(cn, encode_lines(e.members)) + from_bytes_text(
        cn,
        exception_decode_lines(e),
    )
}

impl Exception {
    /// The Rust source generated for this exception.
    #[verifier::spinoff_prover]
    pub fn generate(&self) -> (text: String)
        ensures
            text@ == exception_text(self@),
    {
        let cn = self.class_name();
        let mut out = String::new();
        write_line(&mut out, "#[derive(Debug)]\n", 0);
        assert(Seq::<char>::empty() + indented("#[derive(Debug)]\n"@, 0) =~= indented(
            "#[derive(Debug)]\n"@,
            0,
        ));
        let mut head = "pub struct ".to_owned();
        head.append(cn.as_str());
        head.append(" {\n");
        write_line(&mut out, head.as_str(), 0);
        let ghost prefix = out@;
        let ghost members = named_types_view(self.members@);
        let mut k: usize = 0;
        while k < self.members.len()
            invariant
                0 <= k <= self.members@.len(),
                members == named_types_view(self.members@),
                out@ == prefix + exception_fields(members.subrange(0, k as int)),
            decreases self.members@.len() - k,
        {
            let ghost done = members.subrange(0, k as int);
            assert(members.subrange(0, k + 1).drop_last() =~= done);
            let mut line = "pub ".to_owned();
            let name = to_snake_case(self.members[k].0.as_str());
            line.append(name.as_str());
            line.append(": ");
            let rust = self.members[k].1.rust_type();
            line.append(rust.as_str());
            line.append(",\n");
            write_line(&mut out, line.as_str(), 1);
            assert(prefix + exception_fields(done) + indented(line@, 1) =~= prefix + (
            exception_fields(done) + indented(line@, 1)));
            k = k + 1;
        }
        assert(members.subrange(0, k as int) =~= members);
        match &self.extends {
            Some(t) => {
                let mut line = "pub extends: ".to_owned();
                let rust = t.rust_type();
                line.append(rust.as_str());
                line.append(",\n");
                write_line(&mut out, line.as_str(), 1);
            },
            None => {
                assert(out@ + Seq::<char>::empty() =~= out@);
            },
        }
        write_line(&mut out, "}\n\n", 0);
        let mut display = "impl std::fmt::Display for ".to_owned();
        display.append(cn.as_str());
        display.append(" {\n");
        write_line(&mut out, display.as_str(), 0);
        write_line(
            &mut out,
            "fn fmt(&self, f: &mut std::fmt::Formatter<'_>) -> std::fmt::Result {\n",
            1,
        );
        let mut body = "write!(f, \"".to_owned();
        body.append(cn.as_str());
        body.append("\")\n");
        write_line(&mut out, body.as_str(), 2);
        write_line(&mut out, "}\n}\n\n", 1);
        let mut error_impl = "impl std::error::Error for ".to_owned();
        error_impl.append(cn.as_str());
        error_impl.append(" {}\n\n");
        write_line(&mut out, error_impl.as_str(), 0);
        let encode = member_encode_lines(&self.members);
        write_to_bytes(&mut out, cn.as_str(), &encode);
        let mut decode = member_decode_lines(&self.members);
        match &self.extends {
            Some(t) => {
                let mut line = "extends:  ".to_owned();
                let rust = t.rust_type();
                line.append(rust.as_str());
                line.append("::from_bytes(&bytes[read as usize..bytes.len()], &mut read)?,\n");
                let ghost before = decode@;
                decode.push(line);
                assert(texts(decode@) =~= texts(before).push(line@));
            },
            None => {},
        }
        write_from_bytes(&mut out, cn.as_str(), &decode);
        out
    }

    /// An exception with no name, no base and no members.
    pub fn empty() -> (e: Exception)
        ensures
            e@ == (ExceptionView { name: Seq::empty(), extends: None, members: Seq::empty() }),
    {
        let e = Exception { name: String::new(), extends: None, members: Vec::new() };
        assert(named_types_view(e.members@) =~= Seq::empty());
        e
    }

    /// Appends a member.
    pub fn add_member(&mut self, name: &str, var_type: IceType)
        ensures
            final(self)@ == (ExceptionView {
                name: old(self)@.name,
                extends: old(self)@.extends,
                members: old(self)@.members.push((name@, var_type@)),
            }),
    {
        self.members.push((name.to_owned(), var_type));
        proof {
            assert(named_types_view(self.members@) =~= named_types_view(old(self).members@).push(
                (name@, var_type@),
            ));
        }
    }

    /// The name of the generated Rust type.
    pub fn class_name(&self) -> (s: String)
        ensures
            s@ == pascal_case(self@.name),
    {
        to_pascal_case(self.name.as_str())
    }
}

/// The fields of an exception are generated in the order its members are declared: the text for `a + b` is the text for `a` followed by the text for `b`.
pub proof fn lemma_exception_fields_in_order(a: Seq<(Seq<char>, IceTypeView)>, b: Seq<(Seq<char>, IceTypeView)>)
    ensures
        exception_fields(a + b) == exception_fields(a) + exception_fields(b),
    decreases b.len(),
{
    if b.len() == 0 {
        assert(a + b =~= a);
        assert(exception_fields(a) + Seq::<char>::empty() =~= exception_fields(a));
    } else {
        lemma_exception_fields_in_order(a, b.drop_last());
        assert((a + b).drop_last() =~= a + b.drop_last());
        assert((a + b).last() == b.last());
        assert(exception_fields(a + b) =~= exception_fields(a) + exception_fields(b));
    }
}

} // verus!
