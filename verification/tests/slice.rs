use std::collections::BTreeSet;

use ice_rs::errors::Error;
use ice_rs::slice::enumeration::Enum;
use ice_rs::slice::exception::Exception;
use ice_rs::slice::function::Function;
use ice_rs::slice::interface::Interface;
use ice_rs::slice::module::Module;
use ice_rs::slice::parser::{Pair, ParsedObject, Rule};
use ice_rs::slice::struct_decl::Struct;
use ice_rs::slice::types::{classify_groups, IceType, TypeForm};
use ice_rs::text::{decimal_string, parse_i32};

fn node(rule: Rule, text: &str, inner: Vec<Pair>) -> Pair {
    Pair { rule: rule, text: String::from(text), inner: inner }
}

fn leaf(rule: Rule, text: &str) -> Pair {
    node(rule, text, Vec::new())
}

fn type_text(text: &str) -> String {
    IceType::from(text).expect("type pattern compiles").rust_type()
}

#[test]
fn test_type_keywords() {
    assert_eq!("()", type_text("void"));
    assert_eq!("bool", type_text("bool"));
    assert_eq!("u8", type_text("byte"));
    assert_eq!("i16", type_text("short"));
    assert_eq!("i32", type_text("int"));
    assert_eq!("i64", type_text("long"));
    assert_eq!("f32", type_text("float"));
    assert_eq!("f64", type_text("double"));
    assert_eq!("String", type_text("string"));
}

#[test]
fn test_type_nested() {
    assert_eq!("Vec<i32>", type_text("sequence<int>"));
    assert_eq!("Vec<Vec<i64>>", type_text("sequence<sequence<long>>"));
    assert_eq!("HashMap<String, i32>", type_text("dictionary<string, int>"));
    assert_eq!("HashMap<String, Vec<u8>>", type_text("dictionary<string,sequence<byte>>"));
}

#[test]
fn test_type_custom() {
    assert_eq!("Rect", type_text("Rect"));
    assert_eq!("MyInt", type_text("MyInt"));
    assert!(IceType::from("Rect").unwrap().as_ref());
    assert!(IceType::from("string").unwrap().as_ref());
    assert!(IceType::from("sequence<int>").unwrap().as_ref());
    assert!(!IceType::from("int").unwrap().as_ref());
    assert!(!IceType::from("void").unwrap().as_ref());
}

#[test]
fn test_type_keyword_prefix() {
    // The pattern is not anchored at the end: a name that starts with a keyword is read
    // as that keyword.
    assert_eq!("i32", type_text("integer"));
}

#[test]
fn test_classify_groups() {
    let groups = vec![String::from("sequence"), String::from("int")];
    match classify_groups(&groups) {
        TypeForm::Sequence(x) => assert_eq!("int", x),
        _ => panic!("expected a sequence"),
    }
    let groups = vec![String::from("dictionary"), String::from("string"), String::from("long")];
    match classify_groups(&groups) {
        TypeForm::Dictionary(k, v) => {
            assert_eq!("string", k);
            assert_eq!("long", v);
        },
        _ => panic!("expected a dictionary"),
    }
    match classify_groups(&vec![String::from("bool")]) {
        TypeForm::Simple(t) => assert_eq!("bool", t.rust_type()),
        _ => panic!("expected a keyword"),
    }
    assert!(matches!(classify_groups(&Vec::new()), TypeForm::Custom));
    assert!(matches!(classify_groups(&vec![String::from("sequence")]), TypeForm::Custom));
}

#[test]
fn test_parse_i32() {
    assert_eq!(Some(0), parse_i32("0"));
    assert_eq!(Some(42), parse_i32("42"));
    assert_eq!(Some(42), parse_i32("+42"));
    assert_eq!(Some(-17), parse_i32("-17"));
    assert_eq!(Some(2147483647), parse_i32("2147483647"));
    assert_eq!(Some(-2147483648), parse_i32("-2147483648"));
    assert_eq!(None, parse_i32("2147483648"));
    assert_eq!(None, parse_i32("-2147483649"));
    assert_eq!(None, parse_i32(""));
    assert_eq!(None, parse_i32("-"));
    assert_eq!(None, parse_i32("1x"));
    assert_eq!(None, parse_i32(" 1"));
    for n in [0, 7, -7, 1234, i32::MAX, i32::MIN] {
        assert_eq!(n.to_string().parse::<i32>().ok(), parse_i32(&n.to_string()));
    }
}

#[test]
fn test_decimal_string() {
    for n in [0, 5, 10, -1, 42, 1000, -90210, i32::MAX, i32::MIN] {
        assert_eq!(format!("{}", n), decimal_string(n));
    }
}

#[test]
fn test_names() {
    assert_eq!("RectType", Enum::new("rect_type").class_name());
    assert_eq!("RectProps", Struct::new("rect_props").class_name());
    assert_eq!("say_hello", Function::new("sayHello", IceType::VoidType).function_name());
    assert_eq!("Demo", Interface::new("demo").class_name());
    let mut m = Module::new();
    m.name = String::from("RustDemo");
    assert_eq!("rust_demo", m.snake_name());
}

#[test]
fn test_enum_values() {
    let mut e = Enum::new("RectType");
    e.add_variant("Square", None);
    e.add_variant("Rect", Some(5));
    e.add_variant("Circle", None);
    e.add_variant("Line", Some(-3));
    e.add_variant("Point", None);
    let text = e.generate();
    assert!(text.contains("    Square = 0,\n    Rect = 5,\n    Circle = 6,\n    Line = -3,\n    Point = -2,\n"));
}

#[test]
fn test_enum_generate() {
    let mut e = Enum::new("rect_type");
    e.add_variant("square", None);
    e.add_variant("rect", Some(5));
    let expected = [
        "#[derive(Debug, Copy, Clone, TryFromPrimitive, PartialEq)]\n",
        "#[repr(i32)]\n",
        "pub enum RectType {\n",
        "    Square = 0,\n",
        "    Rect = 5,\n",
        "}\n\n",
        "impl ToBytes for RectType {\n",
        "    fn to_bytes(&self) -> Result<Vec<u8>, Error> {\n",
        "        let mut bytes = Vec::new();\n",
        "        bytes.extend(IceSize{size: *self as i32}.to_bytes()?);\n",
        "        Ok(bytes)\n",
        "    }\n}\n\n",
        "impl FromBytes for RectType {\n",
        "    fn from_bytes(bytes: &[u8], read_bytes: &mut i32) -> Result<Self, Box<dyn std::error::Error>> {\n",
        "        let mut read = 0;\n",
        "        let enum_value =  IceSize::from_bytes(&bytes[read as usize..bytes.len()], &mut read)?.size;\n",
        "        *read_bytes = *read_bytes + read;\n\n",
        "        match RectType::try_from(enum_value) {\n",
        "            Ok(enum_type) => Ok(enum_type),\n",
        "            _ => Err(Box::new(ProtocolError {}))\n",
        "        }\n",
        "    }\n}\n\n",
    ].concat();
    assert_eq!(expected, e.generate());
}

#[test]
fn test_struct_write() {
    let mut s = Struct::new("rect");
    s.add_member("width", IceType::LongType);
    s.add_member("heightValue", IceType::IntType);
    let expected = [
        "#[derive(Debug, Copy, Clone, PartialEq)]\n",
        "pub struct Rect {\n",
        "    pub width: i64,\n",
        "    pub height_value: i32,\n",
        "}\n\n",
        "impl ToBytes for Rect {\n",
        "    fn to_bytes(&self) -> Result<Vec<u8>, Error> {\n",
        "        let mut bytes = Vec::new();\n",
        "        bytes.extend(self.width.to_bytes()?);\n",
        "        bytes.extend(self.height_value.to_bytes()?);\n",
        "        Ok(bytes)\n",
        "    }\n}\n\n",
        "impl FromBytes for Rect {\n",
        "    fn from_bytes(bytes: &[u8], read_bytes: &mut i32) -> Result<Self, Error> {\n",
        "        let mut read = 0;\n",
        "        let obj = Self{\n",
        "            width:  i64::from_bytes(&bytes[read as usize..bytes.len()], &mut read)?,\n",
        "            height_value:  i32::from_bytes(&bytes[read as usize..bytes.len()], &mut read)?,\n",
        "        };\n",
        "        *read_bytes = *read_bytes + read;\n",
        "        Ok(obj)\n",
        "    }\n}\n\n",
        "impl AsEncapsulation for Rect {\n",
        "    fn as_encapsulation(&self) -> Result<Encapsulation, Error> {\n",
        "        let bytes = self.to_bytes()?;\n",
        "        Ok(Encapsulation {\n",
        "            size: 6 + bytes.len() as i32,\n",
        "            major: 1,\n",
        "            minor: 1,\n",
        "            data: bytes.to_vec(),\n",
        "        })\n",
        "    }\n}\n\n",
        "impl FromEncapsulation for Rect {\n",
        "    type Output = Self;\n\n",
        "    fn from_encapsulation(body: Encapsulation) -> Result<Self::Output, Error> {\n",
        "        let mut read_bytes = 0;\n",
        "        Self::from_bytes(&body.data, &mut read_bytes)\n",
        "    }\n}\n\n",
    ].concat();
    assert_eq!(expected, s.write());
}

#[test]
fn test_exception_generate() {
    let mut e = Exception::empty();
    e.name = String::from("derived_error");
    e.extends = Some(IceType::CustomType(String::from("BaseError")));
    e.add_member("reason", IceType::StringType);
    let text = e.generate();
    assert!(text.starts_with(&[
        "#[derive(Debug)]\n",
        "pub struct DerivedError {\n",
        "    pub reason: String,\n",
        "    pub extends: BaseError,\n",
        "}\n\n",
        "impl std::fmt::Display for DerivedError {\n",
        "    fn fmt(&self, f: &mut std::fmt::Formatter<'_>) -> std::fmt::Result {\n",
        "        write!(f, \"DerivedError\")\n",
        "    }\n}\n\n",
        "impl std::error::Error for DerivedError {}\n\n",
        "impl ToBytes for DerivedError {\n",
    ].concat()));
    assert!(text.ends_with(&[
        "        let obj = Self{\n",
        "            reason:  String::from_bytes(&bytes[read as usize..bytes.len()], &mut read)?,\n",
        "            extends:  BaseError::from_bytes(&bytes[read as usize..bytes.len()], &mut read)?,\n",
        "        };\n",
        "        *read_bytes = *read_bytes + read;\n",
        "        Ok(obj)\n",
        "    }\n}\n\n",
    ].concat()));
}

#[test]
fn test_function_generate() {
    let mut f = Function::new("calcRect", IceType::CustomType(String::from("Rect")));
    f.add_argument("rect", IceType::CustomType(String::from("Rect")), false);
    f.add_argument("area", IceType::LongType, true);
    assert_eq!(
        "    fn calc_rect(&mut self, rect: &Rect, area: &mut i64) -> Result<Rect, Error>;\n",
        f.generate_decl()
    );
    let expected = [
        "    fn calc_rect(&mut self, rect: &Rect, area: &mut i64) -> Result<Rect, Error> {\n",
        "        let mut bytes = Vec::new();\n",
        "        bytes.extend(rect.to_bytes()?);\n",
        "        let reply = self.dispatch(&String::from(\"calcRect\"), 0, &Encapsulation::from(bytes))?;\n\n",
        "        let mut read_bytes: i32 = 0;\n",
        "        *area = i64::from_bytes(&reply.body.data[read_bytes as usize..reply.body.data.len()], &mut read_bytes)?;\n",
        "        Rect::from_bytes(&reply.body.data[read_bytes as usize..reply.body.data.len()], &mut read_bytes)\n",
        "    }\n",
    ].concat();
    assert_eq!(expected, f.generate_impl());
}

#[test]
fn test_function_generate_void() {
    let f = Function::new("sayHello", IceType::VoidType);
    let expected = [
        "    fn say_hello(&mut self) -> Result<(), Error> {\n",
        "        let  bytes = Vec::new();\n",
        "        self.dispatch(&String::from(\"sayHello\"), 0, &Encapsulation::from(bytes))?;\n\n",
        "        Ok(())\n",
        "    }\n",
    ].concat();
    assert_eq!(expected, f.generate_impl());
}

#[test]
fn test_interface_generate() {
    let mut i = Interface::new("hello");
    i.add_function(Function::new("sayHello", IceType::VoidType));
    let text = i.generate("::Demo", "hello:tcp -h localhost -p 10000");
    assert!(text.starts_with(&[
        "pub trait Hello : IceObject {\n",
        "    fn say_hello(&mut self) -> Result<(), Error>;\n",
        "}\n\n",
        "pub struct HelloPrx {\n",
        "    proxy: Proxy\n}\n\n",
        "impl IceObject for HelloPrx {\n",
        "    const TYPE_ID: &'static str = \"::Demo::hello\";\n",
        "    const NAME: &'static str = \"hello:tcp -h localhost -p 10000\";\n\n",
    ].concat()));
    assert!(text.ends_with(&[
        "impl HelloPrx {\n",
        "    pub fn checked_cast(proxy: Proxy) -> Result<Self, Error> {\n",
        "        let mut my_proxy = Self {\n",
        "            proxy: proxy\n",
        "        };\n\n",
        "        if !my_proxy.ice_is_a()? {\n",
        "            return Err(Error::TcpError);\n",
        "        }\n\n",
        "        Ok(my_proxy)\n",
        "    }\n}\n\n",
    ].concat()));
}

fn demo_tree() -> Vec<Pair> {
    let enum_block = node(Rule::enum_block, "", vec![
        leaf(Rule::keyword_enum, "enum"),
        leaf(Rule::identifier, "RectType"),
        leaf(Rule::block_open, "{"),
        node(Rule::enum_lines, "", vec![
            node(Rule::enum_line, "", vec![leaf(Rule::identifier, "Square")]),
            node(Rule::enum_line, "", vec![
                leaf(Rule::identifier, "Rect"),
                leaf(Rule::numeric_value, "5"),
            ]),
        ]),
        leaf(Rule::block_close, "}"),
    ]);
    let struct_block = node(Rule::struct_block, "", vec![
        leaf(Rule::keyword_struct, "struct"),
        leaf(Rule::identifier, "Size"),
        leaf(Rule::block_open, "{"),
        node(Rule::struct_line, "", vec![
            leaf(Rule::typename, "long"),
            leaf(Rule::identifier, "width"),
            leaf(Rule::struct_line_end, ";"),
        ]),
        leaf(Rule::block_close, "}"),
    ]);
    let interface_block = node(Rule::interface_block, "", vec![
        leaf(Rule::keyword_interface, "interface"),
        leaf(Rule::identifier, "Hello"),
        leaf(Rule::block_open, "{"),
        node(Rule::function, "", vec![
            leaf(Rule::fn_return, "void"),
            leaf(Rule::fn_name, "sayHello"),
            leaf(Rule::fn_arg_open, "("),
            node(Rule::fn_arg_list, "", vec![
                node(Rule::fn_arg, "", vec![
                    leaf(Rule::typename, "int"),
                    leaf(Rule::identifier, "delay"),
                ]),
                node(Rule::fn_arg_out, "", vec![
                    leaf(Rule::keyword_out, "out"),
                    leaf(Rule::typename, "string"),
                    leaf(Rule::identifier, "answer"),
                ]),
            ]),
            leaf(Rule::fn_arg_close, ")"),
        ]),
        leaf(Rule::block_close, "}"),
    ]);
    let inner_module = node(Rule::module_block, "", vec![
        leaf(Rule::keyword_module, "module"),
        leaf(Rule::identifier, "Inner"),
        leaf(Rule::block_open, "{"),
        leaf(Rule::block_close, "}"),
    ]);
    vec![
        leaf(Rule::keyword_module, "module"),
        leaf(Rule::identifier, "Demo"),
        leaf(Rule::block_open, "{"),
        node(Rule::any_block, "", vec![enum_block, struct_block, interface_block, inner_module]),
        node(Rule::typedef, "", vec![
            leaf(Rule::typename, "dictionary<string, int>"),
            leaf(Rule::identifier, "Counts"),
            leaf(Rule::typedef_end, ";"),
        ]),
        leaf(Rule::block_close, "}"),
    ]
}

#[test]
fn test_module_parse() {
    let module = Module::parse(&demo_tree()).expect("the tree is well formed");
    assert_eq!("Demo", module.name);
    assert_eq!("::Demo", module.full_name);
    assert!(module.has_dict());
    let files = module.generate("demo");
    assert_eq!(2, files.len());
    assert!(files[0].dir.is_empty());
    assert_eq!(vec![String::from("inner")], files[1].dir);
    let text = &files[0].content;
    assert!(text.contains("pub mod inner;\n"));
    assert!(text.contains("type Counts = HashMap<String, i32>;\n"));
    assert!(text.contains("pub enum RectType {\n    Square = 0,\n    Rect = 5,\n}\n"));
    assert!(text.contains("    pub width: i64,\n"));
    assert!(text.contains("    fn say_hello(&mut self, delay: i32, answer: &mut String) -> Result<(), Error>;\n"));
    assert!(text.contains("    const TYPE_ID: &'static str = \"::Demo::Hello\";\n"));
    assert!(text.contains("    const NAME: &'static str = \"demo\";\n"));
    assert!(text.contains("        let reply = self.dispatch(&String::from(\"sayHello\"), 0"));
    assert_eq!("// This file has been generated.\n\n\n\n\n\n", &files[1].content);
}

#[test]
fn test_module_uses_sorted() {
    let module = Module::parse(&demo_tree()).unwrap();
    let files = module.generate("demo");
    let mut uses: BTreeSet<String> = BTreeSet::new();
    uses.insert(String::from("use std::collections::HashMap;\n"));
    uses.insert(String::from("use ice_rs::errors::*;\n"));
    uses.insert(String::from("use num_enum::TryFromPrimitive;\n"));
    uses.insert(String::from("use std::convert::TryFrom;\n"));
    uses.insert(String::from("use ice_rs::encoding::IceSize;\n"));
    uses.insert(String::from("use ice_rs::encoding::{\n   ToBytes, FromBytes\n};\n"));
    uses.insert(String::from("use ice_rs::proxy::Proxy;\n"));
    uses.insert(String::from("use ice_rs::iceobject::IceObject;\n"));
    uses.insert(String::from("use ice_rs::protocol::{Encapsulation, ReplyData};\n"));
    let mut expected = String::from("// This file has been generated.\n\n");
    for u in &uses {
        expected.push_str(u);
    }
    expected.push_str("pub mod inner;\n");
    assert!(files[0].content.starts_with(&expected));
}

#[test]
fn test_nested_module_path() {
    let tree = vec![
        leaf(Rule::keyword_module, "module"),
        leaf(Rule::identifier, "Outer"),
        node(Rule::any_block, "", vec![node(Rule::module_block, "", vec![
            leaf(Rule::identifier, "Middle"),
            node(Rule::any_block, "", vec![node(Rule::module_block, "", vec![
                leaf(Rule::identifier, "Leaf"),
                node(Rule::any_block, "", vec![node(Rule::interface_block, "", vec![
                    leaf(Rule::identifier, "Probe"),
                ])]),
            ])]),
        ])]),
    ];
    let module = Module::parse(&tree).unwrap();
    let files = module.generate("ctx");
    assert_eq!(3, files.len());
    assert_eq!(vec![String::from("middle"), String::from("leaf")], files[2].dir);
    // A module's path is fixed from its parent's once the parent is read; deeper
    // modules keep the path their own parent had then.
    assert!(files[2].content.contains("\"::Middle::Leaf::Probe\""));
}

#[test]
fn test_parse_refusals() {
    let bad = vec![leaf(Rule::keyword_enum, "enum")];
    assert_eq!(Some(Error::ParsingError), Module::parse(&bad).err());
    let bad_enum = vec![node(Rule::enum_lines, "", vec![node(Rule::enum_line, "", vec![
        leaf(Rule::identifier, "A"),
        leaf(Rule::numeric_value, "x1"),
    ])])];
    assert_eq!(Some(Error::ParsingError), Enum::parse(&bad_enum).err());
    let top = vec![node(Rule::enum_lines, "", vec![node(Rule::enum_line, "", vec![
        leaf(Rule::identifier, "A"),
        leaf(Rule::numeric_value, "2147483647"),
    ])])];
    assert_eq!(Some(Error::ParsingError), Enum::parse(&top).err());
    let bad_fn = vec![node(Rule::fn_arg_list, "", vec![leaf(Rule::identifier, "x")])];
    assert_eq!(Some(Error::ParsingError), Function::parse(&bad_fn).err());
    let bad_struct = vec![node(Rule::struct_line, "", vec![leaf(Rule::keyword_out, "out")])];
    assert_eq!(Some(Error::ParsingError), Struct::parse(&bad_struct).err());
    let bad_interface = vec![leaf(Rule::typedef, "")];
    assert_eq!(Some(Error::ParsingError), Interface::parse(&bad_interface).err());
}

#[test]
fn test_from_document() {
    let doc = vec![node(Rule::ice, "", vec![
        node(Rule::module_block, "", demo_tree()),
        leaf(Rule::EOI, ""),
    ])];
    let root = Module::from_document(&doc).expect("a complete document");
    let files = root.generate("demo");
    assert_eq!(vec![String::from("demo")], files[1].dir);
    assert_eq!(vec![String::from("demo"), String::from("inner")], files[2].dir);
    let unfinished = vec![node(Rule::ice, "", vec![node(Rule::module_block, "", demo_tree())])];
    assert_eq!(Some(Error::ParsingError), Module::from_document(&unfinished).err());
    let stray = vec![leaf(Rule::EOI, "")];
    assert_eq!(Some(Error::ParsingError), Module::from_document(&stray).err());
}

#[test]
fn test_add_sub_module() {
    let mut root = Module::new();
    root.full_name = String::from("::Root");
    assert!(root.add_sub_module("").is_err());
    {
        let sub = root.add_sub_module("Child").expect("a name");
        assert_eq!("Child", sub.name);
        assert_eq!("::Root::Child", sub.full_name);
        sub.add_enum(Enum::new("Color"));
    }
    let files = root.generate("ctx");
    assert_eq!(2, files.len());
    assert!(files[0].content.contains("pub mod child;\n"));
    assert!(files[1].content.contains("pub enum Color {\n}\n"));
}

#[test]
fn test_module_without_dict() {
    let mut m = Module::new();
    m.add_typedef("Names", IceType::from("sequence<string>").unwrap());
    assert!(!m.has_dict());
    m.add_exception(Exception::empty());
    let files = m.generate("ctx");
    assert_eq!(1, files.len());
    assert!(!files[0].content.contains("HashMap"));
    assert!(files[0].content.contains("type Names = Vec<String>;\n"));
    assert!(files[0].content.contains("impl std::error::Error for  {}\n\n"));
    m.add_typedef("Table", IceType::from("dictionary<int, long>").unwrap());
    assert!(m.has_dict());
    assert!(m.generate("ctx")[0].content.contains("use std::collections::HashMap;\n"));
}

#[test]
fn test_exception_without_base() {
    let mut e = Exception::empty();
    e.name = String::from("plain_error");
    e.add_member("code", IceType::IntType);
    let text = e.generate();
    assert!(!text.contains("extends"));
    assert!(text.contains("pub struct PlainError {\n    pub code: i32,\n}\n\n"));
    assert!(text.contains("            code:  i32::from_bytes(&bytes[read as usize..bytes.len()], &mut read)?,\n        };\n"));
}

#[test]
fn test_function_arguments() {
    let mut f = Function::new("sendNote", IceType::VoidType);
    f.add_argument("noteText", IceType::StringType, false);
    f.add_argument("count", IceType::IntType, false);
    f.add_argument("ack", IceType::BoolType, true);
    assert_eq!(
        "    fn send_note(&mut self, note_text: &String, count: i32, ack: &mut bool) -> Result<(), Error>;\n",
        f.generate_decl()
    );
    let text = f.generate_impl();
    assert!(text.contains("        let mut bytes = Vec::new();\n        bytes.extend(noteText.to_bytes()?);\n        bytes.extend(count.to_bytes()?);\n"));
    assert!(text.contains("        let reply = self.dispatch(&String::from(\"sendNote\"), 0, &Encapsulation::from(bytes))?;\n\n"));
    assert!(text.contains("        *ack = bool::from_bytes(&reply.body.data[read_bytes as usize..reply.body.data.len()], &mut read_bytes)?;\n        Ok(())\n    }\n"));
}
