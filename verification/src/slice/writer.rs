use vstd::prelude::*;

use crate::slice::names::{snake_case, to_snake_case};
use crate::slice::types::{named_types_view, rust_type_text, IceType, IceTypeView};

verus! {

/// The indentation of a nesting level: four spaces a level.
pub open spec fn indentation(level: nat) -> Seq<char>
    decreases level,
{
    if level == 0 {
        Seq::empty()
    } else {
        indentation((level - 1) as nat) + "    "@
    }
}

/// A piece of text written at a nesting level.
pub open spec fn indented(text: Seq<char>, level: nat) -> Seq<char> {
    indentation(level) + text
}

/// Pieces of text, each written at the same nesting level.
pub open spec fn lines_at(lines: Seq<Seq<char>>, level: nat) -> Seq<char>
    decreases lines.len(),
{
    if lines.len() == 0 {
        Seq::empty()
    } else {
        lines_at(lines.drop_last(), level) + indented(lines.last(), level)
    }
}

/// The texts of strings.
pub open spec fn texts(lines: Seq<String>) -> Seq<Seq<char>> {
    lines.map_values(|l: String| l@)
}

/// The `ToBytes` impl written for a type: its encoding runs the given lines.
pub open spec fn to_bytes_text(object_name: Seq<char>, lines: Seq<Seq<char>>) -> Seq<char> {
    indented("impl ToBytes for "@ + object_name + " {\n"@, 0) + indented(
        "fn to_bytes(&self) -> Result<Vec<u8>, Error> {\n"@,
        1,
    ) + indented("let mut bytes = Vec::new();\n"@, 2) + lines_at(lines, 2) + indented(
        "Ok(bytes)\n"@,
        2,
    ) + indented("}\n}\n\n"@, 1)
}

/// The `FromBytes` impl written for a type: its fields are read by the given lines.
pub open spec fn from_bytes_text(object_name: Seq<char>, lines: Seq<Seq<char>>) -> Seq<char> {
    indented("impl FromBytes for "@ + object_name + " {\n"@, 0) + indented(
        "fn from_bytes(bytes: &[u8], read_bytes: &mut i32) -> Result<Self, Error> {\n"@,
        1,
    ) + indented("let mut read = 0;\n"@, 2) + indented("let obj = Self{\n"@, 2) + lines_at(
        lines,
        3,
    ) + indented("};\n"@, 2) + indented("*read_bytes = *read_bytes + read;\n"@, 2) + indented(
        "Ok(obj)\n"@,
        2,
    ) + indented("}\n}\n\n"@, 1)
}

/// The `AsEncapsulation` and `FromEncapsulation` impls written for a type.
pub open spec fn encapsulation_text(object_name: Seq<char>) -> Seq<char> {
    indented("impl AsEncapsulation for "@ + object_name + " {\n"@, 0) + indented(
        "fn as_encapsulation(&self) -> Result<Encapsulation, Error> {\n"@,
        1,
    ) + indented("let bytes = self.to_bytes()?;\n"@, 2) + indented("Ok(Encapsulation {\n"@, 2)
        + indented("size: 6 + bytes.len() as i32,\n"@, 3) + indented("major: 1,\n"@, 3)
        + indented("minor: 1,\n"@, 3) + indented("data: bytes.to_vec(),\n"@, 3) + indented(
        "})\n"@,
        2,
    ) + indented("}\n}\n\n"@, 1) + indented(
        "impl FromEncapsulation for "@ + object_name + " {\n"@,
        0,
    ) + indented("type Output = Self;\n\n"@, 1) + indented(
        "fn from_encapsulation(body: Encapsulation) -> Result<Self::Output, Error> {\n"@,
        1,
    ) + indented("let mut read_bytes = 0;\n"@, 2) + indented(
        "Self::from_bytes(&body.data, &mut read_bytes)\n"@,
        2,
    ) + indented("}\n}\n\n"@, 1)
}

/// Appending two texts one after the other appends their concatenation.
pub proof fn lemma_append_assoc(a: Seq<char>, b: Seq<char>, c: Seq<char>)
    ensures
        a + b + c == a + (b + c),
{
    assert(a + b + c =~= a + (b + c));
}

/// Appends `line` to `out` at nesting level `indent`.
pub fn write_line(out: &mut String, line: &str, indent: usize)
    ensures
        final(out)@ == old(out)@ + indented(line@, indent as nat),
{
    let ghost start = out@;
    let mut k: usize = 0;
    while k < indent
        invariant
            0 <= k <= indent,
            out@ == start + indentation(k as nat),
        decreases indent - k,
    {
        out.append("    ");
        proof {
            assert(start + indentation((k + 1) as nat) =~= start + indentation(k as nat)
                + "    "@);
        }
        k = k + 1;
    }
    out.append(line);
    assert(start + indented(line@, indent as nat) =~= start + indentation(indent as nat) + line@);
}

/// Appends `text` to `out` where `cond` holds.
pub fn append_if(out: &mut String, cond: bool, text: &str)
    ensures
        final(out)@ == old(out)@ + (if cond {
            text@
        } else {
            Seq::empty()
        }),
{
    if cond {
        out.append(text);
    } else {
        assert(out@ + Seq::<char>::empty() =~= out@);
    }
}

/// Appends `line` to `out` at nesting level `indent` where `cond` holds.
pub fn write_line_if(out: &mut String, cond: bool, line: &str, indent: usize)
    ensures
        final(out)@ == old(out)@ + (if cond {
            indented(line@, indent as nat)
        } else {
            Seq::empty()
        }),
{
    if cond {
        write_line(out, line, indent);
    } else {
        assert(out@ + Seq::<char>::empty() =~= out@);
    }
}

/// Appends lines to `out`, each at nesting level `indent`.
pub fn write_lines(out: &mut String, lines: &Vec<String>, indent: usize)
    ensures
        final(out)@ == old(out)@ + lines_at(texts(lines@), indent as nat),
{
    let ghost start = out@;
    let mut k: usize = 0;
    while k < lines.len()
        invariant
            0 <= k <= lines@.len(),
            out@ == start + lines_at(texts(lines@.subrange(0, k as int)), indent as nat),
        decreases lines@.len() - k,
    {
        proof {
            assert(texts(lines@.subrange(0, k + 1)).drop_last() =~= texts(
                lines@.subrange(0, k as int),
            ));
        }
        write_line(out, lines[k].as_str(), indent);
        proof {
            let before = lines_at(texts(lines@.subrange(0, k as int)), indent as nat);
            assert(start + before + indented(lines@[k as int]@, indent as nat) =~= start + (before
                + indented(lines@[k as int]@, indent as nat)));
        }
        k = k + 1;
    }
    assert(lines@.subrange(0, lines@.len() as int) =~= lines@);
}

/// Appends the `ToBytes` impl of a type, whose encoding runs `lines`.
pub fn write_to_bytes(out: &mut String, object_name: &str, lines: &Vec<String>)
    ensures
        final(out)@ == old(out)@ + to_bytes_text(object_name@, texts(lines@)),
{
    let ghost start = out@;
    let mut text = String::new();
    let mut head = "impl ToBytes for ".to_owned();
    head.append(object_name);
    head.append(" {\n");
    write_line(&mut text, head.as_str(), 0);
    assert(Seq::<char>::empty() + indented(head@, 0) =~= indented(head@, 0));
    write_line(&mut text, "fn to_bytes(&self) -> Result<Vec<u8>, Error> {\n", 1);
    write_line(&mut text, "let mut bytes = Vec::new();\n", 2);
    write_lines(&mut text, lines, 2);
    write_line(&mut text, "Ok(bytes)\n", 2);
    write_line(&mut text, "}\n}\n\n", 1);
    out.append(text.as_str());
}

/// Appends the `FromBytes` impl of a type, whose fields are read by `lines`.
pub fn write_from_bytes(out: &mut String, object_name: &str, lines: &Vec<String>)
    ensures
        final(out)@ == old(out)@ + from_bytes_text(object_name@, texts(lines@)),
{
    let mut text = String::new();
    let mut head = "impl FromBytes for ".to_owned();
    head.append(object_name);
    head.append(" {\n");
    write_line(&mut text, head.as_str(), 0);
    assert(Seq::<char>::empty() + indented(head@, 0) =~= indented(head@, 0));
    write_line(
        &mut text,
        "fn from_bytes(bytes: &[u8], read_bytes: &mut i32) -> Result<Self, Error> {\n",
        1,
    );
    write_line(&mut text, "let mut read = 0;\n", 2);
    write_line(&mut text, "let obj = Self{\n", 2);
    write_lines(&mut text, lines, 3);
    write_line(&mut text, "};\n", 2);
    write_line(&mut text, "*read_bytes = *read_bytes + read;\n", 2);
    write_line(&mut text, "Ok(obj)\n", 2);
    write_line(&mut text, "}\n}\n\n", 1);
    out.append(text.as_str());
}

/// Appends the `AsEncapsulation` and `FromEncapsulation` impls of a type.
pub fn write_encapsulation(out: &mut String, object_name: &str)
    ensures
        final(out)@ == old(out)@ + encapsulation_text(object_name@),
{
    let mut text = String::new();
    let mut head = "impl AsEncapsulation for ".to_owned();
    head.append(object_name);
    head.append(" {\n");
    write_line(&mut text, head.as_str(), 0);
    assert(Seq::<char>::empty() + indented(head@, 0) =~= indented(head@, 0));
    write_line(&mut text, "fn as_encapsulation(&self) -> Result<Encapsulation, Error> {\n", 1);
    write_line(&mut text, "let bytes = self.to_bytes()?;\n", 2);
    write_line(&mut text, "Ok(Encapsulation {\n", 2);
    write_line(&mut text, "size: 6 + bytes.len() as i32,\n", 3);
    write_line(&mut text, "major: 1,\n", 3);
    write_line(&mut text, "minor: 1,\n", 3);
    write_line(&mut text, "data: bytes.to_vec(),\n", 3);
    write_line(&mut text, "})\n", 2);
    write_line(&mut text, "}\n}\n\n", 1);
    let mut head2 = "impl FromEncapsulation for ".to_owned();
    head2.append(object_name);
    head2.append(" {\n");
    write_line(&mut text, head2.as_str(), 0);
    write_line(&mut text, "type Output = Self;\n\n", 1);
    write_line(
        &mut text,
        "fn from_encapsulation(body: Encapsulation) -> Result<Self::Output, Error> {\n",
        1,
    );
    write_line(&mut text, "let mut read_bytes = 0;\n", 2);
    write_line(&mut text, "Self::from_bytes(&body.data, &mut read_bytes)\n", 2);
    write_line(&mut text, "}\n}\n\n", 1);
    out.append(text.as_str());
}

/// The lines that encode members, one each, in order.
pub open spec fn encode_lines(members: Seq<(Seq<char>, IceTypeView)>) -> Seq<Seq<char>> {
    members.map_values(
        |m: (Seq<char>, IceTypeView)| "bytes.extend(self."@ + snake_case(m.0) + ".to_bytes()?);\n"@,
    )
}

/// The line that decodes a member.
pub open spec fn decode_line(m: (Seq<char>, IceTypeView)) -> Seq<char> {
    snake_case(m.0) + ":  "@ + rust_type_text(m.1)
        + "::from_bytes(&bytes[read as usize..bytes.len()], &mut read)?,\n"@
}

/// The lines that decode members, one each, in order.
pub open spec fn decode_lines(members: Seq<(Seq<char>, IceTypeView)>) -> Seq<Seq<char>> {
    members.map_values(|m: (Seq<char>, IceTypeView)| decode_line(m))
}

/// The lines that encode the given members.
pub fn member_encode_lines(members: &Vec<(String, IceType)>) -> (r: Vec<String>)
    ensures
        texts(r@) == encode_lines(named_types_view(members@)),
{
    let mut r: Vec<String> = Vec::new();
    let mut k: usize = 0;
    while k < members.len()
        invariant
            0 <= k <= members@.len(),
            r@.len() == k,
            forall|j: int|
                0 <= j < k ==> (#[trigger] r@[j])@ == encode_lines(named_types_view(members@))[j],
        decreases members@.len() - k,
    {
        let mut line = "bytes.extend(self.".to_owned();
        let name = to_snake_case(members[k].0.as_str());
        line.append(name.as_str());
        line.append(".to_bytes()?);\n");
        r.push(line);
        k = k + 1;
    }
    assert(texts(r@) =~= encode_lines(named_types_view(members@)));
    r
}

/// The lines that decode the given members.
pub fn member_decode_lines(members: &Vec<(String, IceType)>) -> (r: Vec<String>)
    ensures
        texts(r@) == decode_lines(named_types_view(members@)),
{
    let mut r: Vec<String> = Vec::new();
    let mut k: usize = 0;
    while k < members.len()
        invariant
            0 <= k <= members@.len(),
            r@.len() == k,
            forall|j: int|
                0 <= j < k ==> (#[trigger] r@[j])@ == decode_lines(named_types_view(members@))[j],
        decreases members@.len() - k,
    {
        let mut line = to_snake_case(members[k].0.as_str());
        line.append(":  ");
        let rust = members[k].1.rust_type();
        line.append(rust.as_str());
        line.append("::from_bytes(&bytes[read as usize..bytes.len()], &mut read)?,\n");
        r.push(line);
        k = k + 1;
    }
    assert(texts(r@) =~= decode_lines(named_types_view(members@)));
    r
}

/// Lines are written in the order they are given: the text for `a + b` is the text for `a` followed by the text for `b`.
pub proof fn lemma_lines_at_in_order(a: Seq<Seq<char>>, b: Seq<Seq<char>>, level: nat)
    ensures
        lines_at(a + b, level) == lines_at(a, level) + lines_at(b, level),
    decreases b.len(),
{
    if b.len() == 0 {
        assert(a + b =~= a);
        assert(lines_at(a, level) + Seq::<char>::empty() =~= lines_at(a, level));
    } else {
        lemma_lines_at_in_order(a, b.drop_last(), level);
        assert((a + b).drop_last() =~= a + b.drop_last());
        assert((a + b).last() == b.last());
        assert(lines_at(a + b, level) =~= lines_at(a, level) + lines_at(b, level));
    }
}

} // verus!
