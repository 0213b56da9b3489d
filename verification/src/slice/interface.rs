use vstd::prelude::*;

use crate::errors::Error;
use crate::slice::function::{decl_text, function_of, impl_text, Function, FunctionView};
use crate::slice::writer::{indented, lemma_append_assoc, write_line};
use crate::slice::names::{class_case, to_class_case};
use crate::slice::parser::{Pair, ParsedObject, Rule};

verus! {

/// A slice interface: a name and operations.
#[derive(Clone, Debug)]
pub struct Interface {
    name: String,
    functions: Vec<Function>,
}

/// An interface as a value.
pub struct InterfaceView {
    pub name: Seq<char>,
    pub functions: Seq<FunctionView>,
}

/// Operations as values.
pub open spec fn functions_view(functions: Seq<Function>) -> Seq<FunctionView> {
    functions.map_values(|f: Function| f@)
}

impl View for Interface {
    type V = InterfaceView;

    closed spec fn view(&self) -> InterfaceView {
        InterfaceView { name: self.name@, functions: functions_view(self.functions@) }
    }
}

/// Reads the nodes of an interface's block, left to right, into `i`.
pub open spec fn interface_nodes(i: InterfaceView, pairs: Seq<Pair>) -> Option<InterfaceView>
    decreases pairs.len(),
{
    if pairs.len() == 0 {
        Some(i)
    } else {
        let child = pairs[0];
        let next = match child.rule {
            Rule::keyword_interface | Rule::block_open | Rule::block_close => Some(i),
            Rule::identifier => Some(InterfaceView { name: child.text@, functions: i.functions }),
            Rule::function => match function_of(child.inner@) {
                Some(f) => Some(InterfaceView { name: i.name, functions: i.functions.push(f) }),
                None => None,
            },
            _ => None,
        };
        match next {
            Some(n) => interface_nodes(n, pairs.drop_first()),
            None => None,
        }
    }
}

/// The interface a block's nodes declare, or `None` where they are refused.
pub open spec fn interface_of(pairs: Seq<Pair>) -> Option<InterfaceView> {
    interface_nodes(InterfaceView { name: Seq::empty(), functions: Seq::empty() }, pairs)
}

/// The generated declarations of operations, in order.
pub open spec fn decls_text(functions: Seq<FunctionView>) -> Seq<char>
    decreases functions.len(),
{
    if functions.len() == 0 {
        Seq::empty()
    } else {
        decls_text(functions.drop_last()) + decl_text(functions.last())
    }
}

/// The generated proxy methods of operations, in order.
pub open spec fn impls_text(functions: Seq<FunctionView>) -> Seq<char>
    decreases functions.len(),
{
    if functions.len() == 0 {
        Seq::empty()
    } else {
        impls_text(functions.drop_last()) + impl_text(functions.last())
    }
}

/// The Rust source generated for an interface of the module at `mod_path`, served
/// under the name `context`: a trait with the operations, and a proxy type that
/// implements it by sending requests.
pub open spec fn interface_text(i: InterfaceView, mod_path: Seq<char>, context: Seq<char>) -> Seq<
    char,
> {
    let cn = class_case(i.name);
    indented("pub trait "@ + cn + " : IceObject {\n"@, 0) + decls_text(i.functions) + indented(
        "}\n\n"@,
        0,
    ) + indented("pub struct "@ + cn + "Prx {\n"@, 0) + indented("proxy: Proxy\n}\n\n"@, 1)
        + indented("impl IceObject for "@ + cn + "Prx {\n"@, 0) + indented(
        "const TYPE_ID: &'static str = \""@ + mod_path + "::"@ + i.name + "\";\n"@,
        1,
    ) + indented("const NAME: &'static str = \""@ + context + "\";\n\n"@, 1) + indented(
        "fn dispatch(&mut self, op: &str, mode: u8, params: &Encapsulation) -> Result<ReplyData, Error> {\n"@,
        1,
    ) + indented(
        "let req = self.proxy.create_request(&"@ + cn + "Prx::NAME, op, mode, params);\n"@,
        2,
    ) + indented("self.proxy.make_request(&req)\n"@, 2) + indented("}\n}\n\n"@, 1) + indented(
        "impl "@ + cn + " for "@ + cn + "Prx {\n"@,
        0,
    ) + impls_text(i.functions) + indented("}\n\n"@, 0) + indented(
        "impl "@ + cn + "Prx {\n"@,
        0,
    ) + indented("pub fn checked_cast(proxy: Proxy) -> Result<Self, Error> {\n"@, 1) + indented(
        "let mut my_proxy = Self {\n"@,
        2,
    ) + indented("proxy: proxy\n"@, 3) + indented("};\n\n"@, 2) + indented(
        "if !my_proxy.ice_is_a()? {\n"@,
        2,
    ) + indented("return Err(Error::TcpError);\n"@, 3) + indented("}\n\n"@, 2) + indented(
        "Ok(my_proxy)\n"@,
        2,
    ) + indented("}\n}\n\n"@, 1)
}

impl Interface {
    /// The Rust source generated for this interface, of the module at `mod_path`, served
    /// under the name `context`.
    #[verifier::spinoff_prover]
    pub fn generate(&self, mod_path: &str, context: &str) -> (text: String)
        ensures
            text@ == interface_text(self@, mod_path@, context@),
    {
        let ghost fs = functions_view(self.functions@);
        let cn = self.class_name();
        let mut out = String::new();
        let mut head = "pub trait ".to_owned();
        head.append(cn.as_str());
        head.append(" : IceObject {\n");
        write_line(&mut out, head.as_str(), 0);
        assert(Seq::<char>::empty() + indented(head@, 0) =~= indented(head@, 0));
        let ghost prefix = out@;
        let mut k: usize = 0;
        while k < self.functions.len()
            invariant
                0 <= k <= self.functions@.len(),
                fs == functions_view(self.functions@),
                out@ == prefix + decls_text(fs.subrange(0, k as int)),
            decreases self.functions@.len() - k,
        {
            let ghost done = fs.subrange(0, k as int);
            assert(fs.subrange(0, k + 1).drop_last() =~= done);
            let decl = self.functions[k].generate_decl();
            out.append(decl.as_str());
            proof {
                lemma_append_assoc(prefix, decls_text(done), decl@);
            }
            k = k + 1;
        }
        assert(fs.subrange(0, k as int) =~= fs);
        write_line(&mut out, "}\n\n", 0);
        let mut proxy_type = "pub struct ".to_owned();
        proxy_type.append(cn.as_str());
        proxy_type.append("Prx {\n");
        write_line(&mut out, proxy_type.as_str(), 0);
        write_line(&mut out, "proxy: Proxy\n}\n\n", 1);
        let mut object_impl = "impl IceObject for ".to_owned();
        object_impl.append(cn.as_str());
        object_impl.append("Prx {\n");
        write_line(&mut out, object_impl.as_str(), 0);
        let mut type_id = "const TYPE_ID: &'static str = \"".to_owned();
        type_id.append(mod_path);
        type_id.append("::");
        type_id.append(self.name.as_str());
        type_id.append("\";\n");
        write_line(&mut out, type_id.as_str(), 1);
        let mut served = "const NAME: &'static str = \"".to_owned();
        served.append(context);
        served.append("\";\n\n");
        write_line(&mut out, served.as_str(), 1);
        write_line(
            &mut out,
            "fn dispatch(&mut self, op: &str, mode: u8, params: &Encapsulation) -> Result<ReplyData, Error> {\n",
            1,
        );
        let mut request = "let req = self.proxy.create_request(&".to_owned();
        request.append(cn.as_str());
        request.append("Prx::NAME, op, mode, params);\n");
        write_line(&mut out, request.as_str(), 2);
        write_line(&mut out, "self.proxy.make_request(&req)\n", 2);
        write_line(&mut out, "}\n}\n\n", 1);
        let mut trait_impl = "impl ".to_owned();
        trait_impl.append(cn.as_str());
        trait_impl.append(" for ");
        trait_impl.append(cn.as_str());
        trait_impl.append("Prx {\n");
        write_line(&mut out, trait_impl.as_str(), 0);
        let ghost prefix2 = out@;
        let mut k: usize = 0;
        while k < self.functions.len()
            invariant
                0 <= k <= self.functions@.len(),
                fs == functions_view(self.functions@),
                out@ == prefix2 + impls_text(fs.subrange(0, k as int)),
            decreases self.functions@.len() - k,
        {
            let ghost done = fs.subrange(0, k as int);
            assert(fs.subrange(0, k + 1).drop_last() =~= done);
            let method = self.functions[k].generate_impl();
            out.append(method.as_str());
            proof {
                lemma_append_assoc(prefix2, impls_text(done), method@);
            }
            k = k + 1;
        }
        assert(fs.subrange(0, k as int) =~= fs);
        write_line(&mut out, "}\n\n", 0);
        let mut cast_impl = "impl ".to_owned();
        cast_impl.append(cn.as_str());
        cast_impl.append("Prx {\n");
        write_line(&mut out, cast_impl.as_str(), 0);
        write_line(&mut out, "pub fn checked_cast(proxy: Proxy) -> Result<Self, Error> {\n", 1);
        write_line(&mut out, "let mut my_proxy = Self {\n", 2);
        write_line(&mut out, "proxy: proxy\n", 3);
        write_line(&mut out, "};\n\n", 2);
        write_line(&mut out, "if !my_proxy.ice_is_a()? {\n", 2);
        write_line(&mut out, "return Err(Error::TcpError);\n", 3);
        write_line(&mut out, "}\n\n", 2);
        write_line(&mut out, "Ok(my_proxy)\n", 2);
        write_line(&mut out, "}\n}\n\n", 1);
        out
    }

    /// An interface with the given name and no operations.
    pub fn new(name: &str) -> (i: Interface)
        ensures
            i@ == (InterfaceView { name: name@, functions: Seq::empty() }),
    {
        let i = Interface { name: name.to_owned(), functions: Vec::new() };
        assert(functions_view(i.functions@) =~= Seq::empty());
        i
    }

    /// The name of the generated Rust trait.
    pub fn class_name(&self) -> (s: String)
        ensures
            s@ == class_case(self@.name),
    {
        to_class_case(self.name.as_str())
    }

    /// Appends an operation.
    pub fn add_function(&mut self, function: Function)
        ensures
            final(self)@ == (InterfaceView {
                name: old(self)@.name,
                functions: old(self)@.functions.push(function@),
            }),
    {
        self.functions.push(function);
        proof {
            assert(functions_view(self.functions@) =~= functions_view(old(self).functions@).push(
                function@,
            ));
        }
    }
}

impl ParsedObject for Interface {
    /// Reads an interface from the nodes of its block: its name, then its operations.
    #[verifier::spinoff_prover]
    fn parse(pairs: &[Pair]) -> (r: Result<Interface, Error>)
        ensures
            r is Ok <==> interface_of(pairs@) is Some,
            r matches Ok(i) ==> interface_of(pairs@) == Some(i@),
            r is Err ==> r == Err::<Interface, Error>(Error::ParsingError),
    {
        let mut interface = Interface::new("");
        proof {
            reveal_strlit("");
            assert(""@ =~= Seq::<char>::empty());
        }
        assert(pairs@.subrange(0, pairs@.len() as int) =~= pairs@);
        let mut i: usize = 0;
        while i < pairs.len()
            invariant
                0 <= i <= pairs@.len(),
                interface_of(pairs@) == interface_nodes(
                    interface@,
                    pairs@.subrange(i as int, pairs@.len() as int),
                ),
            decreases pairs@.len() - i,
        {
            let ghost rest = pairs@.subrange(i as int, pairs@.len() as int);
            assert(rest.drop_first() =~= pairs@.subrange(i + 1, pairs@.len() as int));
            let child = &pairs[i];
            match child.rule {
                Rule::keyword_interface | Rule::block_open | Rule::block_close => {},
                Rule::identifier => {
                    interface.name = child.text.clone();
                },
                Rule::function => {
                    match Function::parse(child.inner.as_slice()) {
                        Ok(f) => {
                            interface.add_function(f);
                        },
                        Err(e) => {
                            return Err(e);
                        },
                    }
                },
                _ => {
                    return Err(Error::ParsingError);
                },
            }
            i = i + 1;
        }
        assert(pairs@.subrange(i as int, pairs@.len() as int) =~= Seq::<Pair>::empty());
        Ok(interface)
    }
}

/// The operations of a trait are declared in the order they are declared in the interface: the text for `a + b` is the text for `a` followed by the text for `b`.
pub proof fn lemma_decls_text_in_order(a: Seq<FunctionView>, b: Seq<FunctionView>)
    ensures
        decls_text(a + b) == decls_text(a) + decls_text(b),
    decreases b.len(),
{
    if b.len() == 0 {
        assert(a + b =~= a);
        assert(decls_text(a) + Seq::<char>::empty() =~= decls_text(a));
    } else {
        let init = b.drop_last();
        lemma_decls_text_in_order(a, init);
        assert((a + b).drop_last() =~= a + init);
        assert((a + b).last() == b.last());
        assert(decls_text(a + b) == decls_text(a + init) + decl_text(b.last()));
        lemma_append_assoc(decls_text(a), decls_text(init), decl_text(b.last()));
    }
}

/// The proxy methods are generated in the order the operations are declared: the text for `a + b` is the text for `a` followed by the text for `b`.
pub proof fn lemma_impls_text_in_order(a: Seq<FunctionView>, b: Seq<FunctionView>)
    ensures
        impls_text(a + b) == impls_text(a) + impls_text(b),
    decreases b.len(),
{
    if b.len() == 0 {
        assert(a + b =~= a);
        assert(impls_text(a) + Seq::<char>::empty() =~= impls_text(a));
    } else {
        let init = b.drop_last();
        lemma_impls_text_in_order(a, init);
        assert((a + b).drop_last() =~= a + init);
        assert((a + b).last() == b.last());
        assert(impls_text(a + b) == impls_text(a + init) + impl_text(b.last()));
        lemma_append_assoc(impls_text(a), impls_text(init), impl_text(b.last()));
    }
}

} // verus!
