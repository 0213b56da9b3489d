use vstd::prelude::*;

use crate::errors::Error;
use crate::slice::names::{snake_case, to_snake_case};
use crate::slice::parser::{Pair, ParsedObject, Rule};
use crate::slice::types::{passed_by_ref, rust_type_text, type_of_text, IceType, IceTypeView};
use crate::slice::writer::{append_if, indented, write_line};

verus! {

/// An operation of a slice interface: a name, a return type and typed arguments,
/// each marked as input or output.
#[derive(Clone, Debug)]
pub struct Function {
    pub name: String,
    pub return_type: IceType,
    arguments: Vec<(String, IceType, bool)>,
}

/// An operation as a value; `true` marks an output argument.
pub struct FunctionView {
    pub name: Seq<char>,
    pub return_type: IceTypeView,
    pub arguments: Seq<(Seq<char>, IceTypeView, bool)>,
}

/// Arguments as values.
pub open spec fn arguments_view(args: Seq<(String, IceType, bool)>) -> Seq<
    (Seq<char>, IceTypeView, bool),
> {
    args.map_values(|a: (String, IceType, bool)| (a.0@, a.1@, a.2))
}

impl View for Function {
    type V = FunctionView;

    closed spec fn view(&self) -> FunctionView {
        FunctionView {
            name: self.name@,
            return_type: self.return_type@,
            arguments: arguments_view(self.arguments@),
        }
    }
}

/// What reading an argument leaves: its type, its name, and whether it is an output.
pub type ArgumentLine = (IceTypeView, Seq<char>, bool);

/// Reads the nodes of an argument, left to right: a type, a name, and `out`.
pub open spec fn argument_line(state: ArgumentLine, items: Seq<Pair>) -> Option<ArgumentLine>
    decreases items.len(),
{
    if items.len() == 0 {
        Some(state)
    } else {
        let item = items[0];
        let next = match item.rule {
            Rule::typename => match type_of_text(item.text@) {
                Some(t) => Some((t, state.1, state.2)),
                None => None,
            },
            Rule::identifier => Some((state.0, item.text@, state.2)),
            Rule::keyword_out => Some((state.0, state.1, true)),
            _ => None,
        };
        match next {
            Some(n) => argument_line(n, items.drop_first()),
            None => None,
        }
    }
}

/// Reads the arguments of an operation, left to right, into `f`.
pub open spec fn argument_list(f: FunctionView, args: Seq<Pair>) -> Option<FunctionView>
    decreases args.len(),
{
    if args.len() == 0 {
        Some(f)
    } else {
        let arg = args[0];
        let next = match arg.rule {
            Rule::fn_arg | Rule::fn_arg_out => match argument_line(
                (IceTypeView::Void, Seq::empty(), false),
                arg.inner@,
            ) {
                Some(a) => Some(
                    FunctionView {
                        name: f.name,
                        return_type: f.return_type,
                        arguments: f.arguments.push((a.1, a.0, a.2)),
                    },
                ),
                None => None,
            },
            _ => None,
        };
        match next {
            Some(n) => argument_list(n, args.drop_first()),
            None => None,
        }
    }
}

/// Reads the nodes of an operation, left to right, into `f`.
pub open spec fn function_nodes(f: FunctionView, pairs: Seq<Pair>) -> Option<FunctionView>
    decreases pairs.len(),
{
    if pairs.len() == 0 {
        Some(f)
    } else {
        let child = pairs[0];
        let next = match child.rule {
            Rule::fn_return => match type_of_text(child.text@) {
                Some(t) => Some(
                    FunctionView { name: f.name, return_type: t, arguments: f.arguments },
                ),
                None => None,
            },
            Rule::fn_name => Some(
                FunctionView {
                    name: child.text@,
                    return_type: f.return_type,
                    arguments: f.arguments,
                },
            ),
            Rule::fn_arg_open | Rule::fn_arg_close | Rule::fn_throws => Some(f),
            Rule::fn_arg_list => argument_list(f, child.inner@),
            _ => None,
        };
        match next {
            Some(n) => function_nodes(n, pairs.drop_first()),
            None => None,
        }
    }
}

/// The operation that a declaration's nodes state, or `None` where they are refused.
pub open spec fn function_of(pairs: Seq<Pair>) -> Option<FunctionView> {
    function_nodes(
        FunctionView { name: Seq::empty(), return_type: IceTypeView::Void, arguments: Seq::empty() },
        pairs,
    )
}

/// How an argument is declared in a generated method signature.
pub open spec fn argument_text(a: (Seq<char>, IceTypeView, bool)) -> Seq<char> {
    ", "@ + snake_case(a.0) + ": "@ + (if passed_by_ref(a.1) || a.2 {
        "&"@
    } else {
        Seq::empty()
    }) + (if a.2 {
        "mut "@
    } else {
        Seq::empty()
    }) + rust_type_text(a.1)
}

/// The arguments of a generated method signature.
pub open spec fn arguments_text(args: Seq<(Seq<char>, IceTypeView, bool)>) -> Seq<char>
    decreases args.len(),
{
    if args.len() == 0 {
        Seq::empty()
    } else {
        arguments_text(args.drop_last()) + indented(argument_text(args.last()), 0)
    }
}

/// The generated trait method declaration for an operation.
pub open spec fn decl_text(f: FunctionView) -> Seq<char> {
    indented("fn "@ + snake_case(f.name) + "(&mut self"@, 1) + arguments_text(f.arguments)
        + indented(") -> Result<"@ + rust_type_text(f.return_type) + ", Error>;\n"@, 0)
}

/// Whether one of the arguments is an input.
pub open spec fn has_input(args: Seq<(Seq<char>, IceTypeView, bool)>) -> bool {
    exists|i: int| 0 <= i < args.len() && !(#[trigger] args[i]).2
}

/// Whether one of the arguments is an output.
pub open spec fn has_output(args: Seq<(Seq<char>, IceTypeView, bool)>) -> bool {
    exists|i: int| 0 <= i < args.len() && (#[trigger] args[i]).2
}

/// The lines that encode the input arguments into the request.
pub open spec fn input_lines(args: Seq<(Seq<char>, IceTypeView, bool)>) -> Seq<char>
    decreases args.len(),
{
    if args.len() == 0 {
        Seq::empty()
    } else {
        let a = args.last();
        input_lines(args.drop_last()) + (if !a.2 {
            indented("bytes.extend("@ + a.0 + ".to_bytes()?);\n"@, 2)
        } else {
            Seq::empty()
        })
    }
}

/// The lines that decode the output arguments from the reply.
pub open spec fn output_lines(args: Seq<(Seq<char>, IceTypeView, bool)>) -> Seq<char>
    decreases args.len(),
{
    if args.len() == 0 {
        Seq::empty()
    } else {
        let a = args.last();
        output_lines(args.drop_last()) + (if a.2 {
            indented(
                "*"@ + a.0 + " = "@ + rust_type_text(a.1)
                    + "::from_bytes(&reply.body.data[read_bytes as usize..reply.body.data.len()], &mut read_bytes)?;\n"@,
                2,
            )
        } else {
            Seq::empty()
        })
    }
}

/// The line that decodes an output argument from the reply.
pub open spec fn output_line(a: (Seq<char>, IceTypeView, bool)) -> Seq<char> {
    indented(
        "*"@ + a.0 + " = "@ + rust_type_text(a.1)
            + "::from_bytes(&reply.body.data[read_bytes as usize..reply.body.data.len()], &mut read_bytes)?;\n"@,
        2,
    )
}

/// The line that encodes an input argument into the request.
pub open spec fn input_line(a: (Seq<char>, IceTypeView, bool)) -> Seq<char> {
    indented("bytes.extend("@ + a.0 + ".to_bytes()?);\n"@, 2)
}

/// The outputs are decoded in the order they are declared: the lines for `a + b` are
/// those for `a` followed by those for `b`, and one output argument gets one line.
pub proof fn lemma_output_lines_in_order(
    a: Seq<(Seq<char>, IceTypeView, bool)>,
    b: Seq<(Seq<char>, IceTypeView, bool)>,
    x: (Seq<char>, IceTypeView, bool),
)
    ensures
        output_lines(a + b) == output_lines(a) + output_lines(b),
        output_lines(seq![x]) == (if x.2 {
            output_line(x)
        } else {
            Seq::empty()
        }),
    decreases b.len(),
{
    assert(seq![x].drop_last() =~= Seq::<(Seq<char>, IceTypeView, bool)>::empty());
    assert(output_lines(seq![x].drop_last()) == Seq::<char>::empty());
    assert(output_lines(seq![x]) =~= (if x.2 {
        output_line(x)
    } else {
        Seq::empty()
    }));
    if b.len() == 0 {
        assert(a + b =~= a);
        assert(output_lines(a) + Seq::<char>::empty() =~= output_lines(a));
    } else {
        lemma_output_lines_in_order(a, b.drop_last(), x);
        assert((a + b).drop_last() =~= a + b.drop_last());
        assert((a + b).last() == b.last());
        assert(output_lines(a + b) =~= output_lines(a) + output_lines(b));
    }
}

/// The inputs are encoded in the order they are declared: the lines for `a + b` are
/// those for `a` followed by those for `b`, and one input argument gets one line.
pub proof fn lemma_input_lines_in_order(
    a: Seq<(Seq<char>, IceTypeView, bool)>,
    b: Seq<(Seq<char>, IceTypeView, bool)>,
    x: (Seq<char>, IceTypeView, bool),
)
    ensures
        input_lines(a + b) == input_lines(a) + input_lines(b),
        input_lines(seq![x]) == (if !x.2 {
            input_line(x)
        } else {
            Seq::empty()
        }),
    decreases b.len(),
{
    assert(seq![x].drop_last() =~= Seq::<(Seq<char>, IceTypeView, bool)>::empty());
    assert(input_lines(seq![x].drop_last()) == Seq::<char>::empty());
    assert(input_lines(seq![x]) =~= (if !x.2 {
        input_line(x)
    } else {
        Seq::empty()
    }));
    if b.len() == 0 {
        assert(a + b =~= a);
        assert(input_lines(a) + Seq::<char>::empty() =~= input_lines(a));
    } else {
        lemma_input_lines_in_order(a, b.drop_last(), x);
        assert((a + b).drop_last() =~= a + b.drop_last());
        assert((a + b).last() == b.last());
        assert(input_lines(a + b) =~= input_lines(a) + input_lines(b));
    }
}

/// The arguments of a generated signature appear in the order they are declared.
pub proof fn lemma_arguments_text_in_order(
    a: Seq<(Seq<char>, IceTypeView, bool)>,
    b: Seq<(Seq<char>, IceTypeView, bool)>,
    x: (Seq<char>, IceTypeView, bool),
)
    ensures
        arguments_text(a + b) == arguments_text(a) + arguments_text(b),
        arguments_text(seq![x]) == indented(argument_text(x), 0),
    decreases b.len(),
{
    assert(seq![x].drop_last() =~= Seq::<(Seq<char>, IceTypeView, bool)>::empty());
    assert(arguments_text(seq![x].drop_last()) == Seq::<char>::empty());
    assert(arguments_text(seq![x]) =~= indented(argument_text(x), 0));
    if b.len() == 0 {
        assert(a + b =~= a);
        assert(arguments_text(a) + Seq::<char>::empty() =~= arguments_text(a));
    } else {
        lemma_arguments_text_in_order(a, b.drop_last(), x);
        assert((a + b).drop_last() =~= a + b.drop_last());
        assert((a + b).last() == b.last());
        assert(arguments_text(a + b) =~= arguments_text(a) + arguments_text(b));
    }
}

/// Whether the generated method reads a reply: it has an output or a result.
pub open spec fn needs_reply(f: FunctionView) -> bool {
    has_output(f.arguments) || f.return_type !is Void
}

/// The generated proxy method for an operation: it encodes the inputs, dispatches
/// the request and, where it needs the reply, decodes the outputs and the result.
pub open spec fn impl_text(f: FunctionView) -> Seq<char> {
    indented("fn "@ + snake_case(f.name) + "(&mut self"@, 1) + arguments_text(f.arguments)
        + indented(") -> Result<"@ + rust_type_text(f.return_type) + ", Error> {\n"@, 0)
        + indented(
        "let "@ + (if has_input(f.arguments) {
            "mut"@
        } else {
            Seq::empty()
        }) + " bytes = Vec::new();\n"@,
        2,
    ) + input_lines(f.arguments) + indented(
        (if needs_reply(f) {
            "let reply = self.dispatch(&String::from(\""@
        } else {
            "self.dispatch(&String::from(\""@
        }) + f.name + "\"), 0"@,
        2,
    ) + indented(", &Encapsulation::from(bytes))?;\n\n"@, 0) + (if needs_reply(f) {
        indented("let mut read_bytes: i32 = 0;\n"@, 2) + output_lines(f.arguments)
    } else {
        Seq::empty()
    }) + (if f.return_type is Void {
        indented("Ok(())\n"@, 2)
    } else {
        indented(
            rust_type_text(f.return_type)
                + "::from_bytes(&reply.body.data[read_bytes as usize..reply.body.data.len()], &mut read_bytes)\n"@,
            2,
        )
    }) + indented("}\n"@, 1)
}

impl Function {
    /// Appends the signature's arguments.
    fn write_arguments(&self, out: &mut String)
        ensures
            final(out)@ == old(out)@ + arguments_text(self@.arguments),
    {
        let ghost prefix = out@;
        let ghost args = arguments_view(self.arguments@);
        let mut k: usize = 0;
        while k < self.arguments.len()
            invariant
                0 <= k <= self.arguments@.len(),
                args == arguments_view(self.arguments@),
                args == self@.arguments,
                out@ == prefix + arguments_text(args.subrange(0, k as int)),
            decreases self.arguments@.len() - k,
        {
            let ghost done = args.subrange(0, k as int);
            assert(args.subrange(0, k + 1).drop_last() =~= done);
            let (key, var_type, output) = (&self.arguments[k].0, &self.arguments[k].1, self.arguments[k].2);
            let mut line = ", ".to_owned();
            let name = to_snake_case(key.as_str());
            line.append(name.as_str());
            line.append(": ");
            let by_ref = var_type.as_ref();
            append_if(&mut line, by_ref || output, "&");
            append_if(&mut line, output, "mut ");
            let rust = var_type.rust_type();
            line.append(rust.as_str());
            write_line(out, line.as_str(), 0);
            assert(prefix + arguments_text(done) + indented(line@, 0) =~= prefix + (arguments_text(
                done,
            ) + indented(line@, 0)));
            k = k + 1;
        }
        assert(args.subrange(0, k as int) =~= args);
    }

    /// The trait method declared for this operation.
    #[verifier::spinoff_prover]
    pub fn generate_decl(&self) -> (text: String)
        ensures
            text@ == decl_text(self@),
    {
        let mut out = String::new();
        let mut head = "fn ".to_owned();
        let name = self.function_name();
        head.append(name.as_str());
        head.append("(&mut self");
        write_line(&mut out, head.as_str(), 1);
        assert(Seq::<char>::empty() + indented(head@, 1) =~= indented(head@, 1));
        self.write_arguments(&mut out);
        let mut tail = ") -> Result<".to_owned();
        let rust = self.return_type.rust_type();
        tail.append(rust.as_str());
        tail.append(", Error>;\n");
        write_line(&mut out, tail.as_str(), 0);
        out
    }

    /// The proxy method generated for this operation.
    #[verifier::spinoff_prover]
    pub fn generate_impl(&self) -> (text: String)
        ensures
            text@ == impl_text(self@),
    {
        let ghost args = self@.arguments;
        let mut out = String::new();
        let mut head = "fn ".to_owned();
        let name = self.function_name();
        head.append(name.as_str());
        head.append("(&mut self");
        write_line(&mut out, head.as_str(), 1);
        assert(Seq::<char>::empty() + indented(head@, 1) =~= indented(head@, 1));
        self.write_arguments(&mut out);
        let mut tail = ") -> Result<".to_owned();
        let rust = self.return_type.rust_type();
        tail.append(rust.as_str());
        tail.append(", Error> {\n");
        write_line(&mut out, tail.as_str(), 0);

        let mut any_input = false;
        let mut any_output = false;
        let mut k: usize = 0;
        while k < self.arguments.len()
            invariant
                0 <= k <= self.arguments@.len(),
                args == arguments_view(self.arguments@),
                any_input <==> exists|i: int| 0 <= i < k && !(#[trigger] args[i]).2,
                any_output <==> exists|i: int| 0 <= i < k && (#[trigger] args[i]).2,
            decreases self.arguments@.len() - k,
        {
            if self.arguments[k].2 {
                any_output = true;
                assert(args[k as int].2);
            } else {
                any_input = true;
                assert(!args[k as int].2);
            }
            k = k + 1;
        }
        assert(any_input == has_input(args));
        assert(any_output == has_output(args));

        let mut start = "let ".to_owned();
        append_if(&mut start, any_input, "mut");
        start.append(" bytes = Vec::new();\n");
        write_line(&mut out, start.as_str(), 2);

        let ghost prefix = out@;
        let mut k: usize = 0;
        while k < self.arguments.len()
            invariant
                0 <= k <= self.arguments@.len(),
                args == arguments_view(self.arguments@),
                out@ == prefix + input_lines(args.subrange(0, k as int)),
            decreases self.arguments@.len() - k,
        {
            let ghost done = args.subrange(0, k as int);
            assert(args.subrange(0, k + 1).drop_last() =~= done);
            if !self.arguments[k].2 {
                let mut line = "bytes.extend(".to_owned();
                line.append(self.arguments[k].0.as_str());
                line.append(".to_bytes()?);\n");
                write_line(&mut out, line.as_str(), 2);
                assert(prefix + input_lines(done) + indented(line@, 2) =~= prefix + (input_lines(
                    done,
                ) + indented(line@, 2)));
            } else {
                assert(input_lines(done) + Seq::<char>::empty() =~= input_lines(done));
            }
            k = k + 1;
        }
        assert(args.subrange(0, k as int) =~= args);

        let require_reply = match self.return_type {
            IceType::VoidType => any_output,
            _ => true,
        };
        let mut dispatch = if require_reply {
            "let reply = self.dispatch(&String::from(\"".to_owned()
        } else {
            "self.dispatch(&String::from(\"".to_owned()
        };
        dispatch.append(self.name.as_str());
        dispatch.append("\"), 0");
        write_line(&mut out, dispatch.as_str(), 2);
        write_line(&mut out, ", &Encapsulation::from(bytes))?;\n\n", 0);

        let ghost before_reply = out@;
        if require_reply {
            write_line(&mut out, "let mut read_bytes: i32 = 0;\n", 2);
            let ghost prefix = out@;
            let mut k: usize = 0;
            while k < self.arguments.len()
                invariant
                    0 <= k <= self.arguments@.len(),
                    args == arguments_view(self.arguments@),
                    out@ == prefix + output_lines(args.subrange(0, k as int)),
                decreases self.arguments@.len() - k,
            {
                let ghost done = args.subrange(0, k as int);
                assert(args.subrange(0, k + 1).drop_last() =~= done);
                if self.arguments[k].2 {
                    let mut line = "*".to_owned();
                    line.append(self.arguments[k].0.as_str());
                    line.append(" = ");
                    let rust = self.arguments[k].1.rust_type();
                    line.append(rust.as_str());
                    line.append(
                        "::from_bytes(&reply.body.data[read_bytes as usize..reply.body.data.len()], &mut read_bytes)?;\n",
                    );
                    write_line(&mut out, line.as_str(), 2);
                    assert(prefix + output_lines(done) + indented(line@, 2) =~= prefix + (
                    output_lines(done) + indented(line@, 2)));
                } else {
                    assert(output_lines(done) + Seq::<char>::empty() =~= output_lines(done));
                }
                k = k + 1;
            }
            assert(args.subrange(0, k as int) =~= args);
            assert(out@ =~= before_reply + (indented("let mut read_bytes: i32 = 0;\n"@, 2)
                + output_lines(args)));
        } else {
            assert(out@ =~= before_reply + Seq::<char>::empty());
        }

        match self.return_type {
            IceType::VoidType => {
                write_line(&mut out, "Ok(())\n", 2);
            },
            _ => {
                let mut last = self.return_type.rust_type();
                last.append(
                    "::from_bytes(&reply.body.data[read_bytes as usize..reply.body.data.len()], &mut read_bytes)\n",
                );
                write_line(&mut out, last.as_str(), 2);
            },
        }
        write_line(&mut out, "}\n", 1);
        out
    }

    /// An operation with no name, returning nothing, without arguments.
    pub fn empty() -> (f: Function)
        ensures
            f@ == (FunctionView {
                name: Seq::empty(),
                return_type: IceTypeView::Void,
                arguments: Seq::empty(),
            }),
    {
        let f = Function { name: String::new(), return_type: IceType::VoidType, arguments: Vec::new() };
        assert(arguments_view(f.arguments@) =~= Seq::empty());
        f
    }

    /// An operation with the given name and return type, without arguments.
    pub fn new(name: &str, return_type: IceType) -> (f: Function)
        ensures
            f@ == (FunctionView {
                name: name@,
                return_type: return_type@,
                arguments: Seq::empty(),
            }),
    {
        let f = Function { name: name.to_owned(), return_type: return_type, arguments: Vec::new() };
        assert(arguments_view(f.arguments@) =~= Seq::empty());
        f
    }

    /// The name of the generated Rust method.
    pub fn function_name(&self) -> (s: String)
        ensures
            s@ == snake_case(self@.name),
    {
        to_snake_case(self.name.as_str())
    }

    /// Appends an argument.
    pub fn add_argument(&mut self, name: &str, var_type: IceType, output: bool)
        ensures
            final(self)@ == (FunctionView {
                name: old(self)@.name,
                return_type: old(self)@.return_type,
                arguments: old(self)@.arguments.push((name@, var_type@, output)),
            }),
    {
        self.arguments.push((name.to_owned(), var_type, output));
        proof {
            assert(arguments_view(self.arguments@) =~= arguments_view(old(self).arguments@).push(
                (name@, var_type@, output),
            ));
        }
    }
}

impl ParsedObject for Function {
    /// Reads an operation from the nodes of its declaration: return type, name, and the
    /// arguments, each a type and a name, marked `out` for an output.
    #[verifier::spinoff_prover]
    fn parse(pairs: &[Pair]) -> (r: Result<Function, Error>)
        ensures
            r is Ok <==> function_of(pairs@) is Some,
            r matches Ok(f) ==> function_of(pairs@) == Some(f@),
            r is Err ==> r == Err::<Function, Error>(Error::ParsingError),
    {
        let mut function = Function::empty();
        assert(pairs@.subrange(0, pairs@.len() as int) =~= pairs@);
        let mut i: usize = 0;
        while i < pairs.len()
            invariant
                0 <= i <= pairs@.len(),
                function_of(pairs@) == function_nodes(
                    function@,
                    pairs@.subrange(i as int, pairs@.len() as int),
                ),
            decreases pairs@.len() - i,
        {
            let ghost rest = pairs@.subrange(i as int, pairs@.len() as int);
            assert(rest.drop_first() =~= pairs@.subrange(i + 1, pairs@.len() as int));
            let child = &pairs[i];
            match child.rule {
                Rule::fn_return => {
                    match IceType::from(child.text.as_str()) {
                        Ok(t) => {
                            function.return_type = t;
                        },
                        Err(e) => {
                            return Err(e);
                        },
                    }
                },
                Rule::fn_name => {
                    function.name = child.text.clone();
                },
                Rule::fn_arg_open | Rule::fn_arg_close | Rule::fn_throws => {},
                Rule::fn_arg_list => {
                    let ghost start = function@;
                    assert(child.inner@.subrange(0, child.inner@.len() as int) =~= child.inner@);
                    let mut j: usize = 0;
                    while j < child.inner.len()
                        invariant
                            0 <= j <= child.inner@.len(),
                            i < pairs@.len(),
                            *child == pairs@[i as int],
                            child.rule == Rule::fn_arg_list,
                            function_of(pairs@) == function_nodes(
                                start,
                                pairs@.subrange(i as int, pairs@.len() as int),
                            ),
                            argument_list(start, child.inner@) == argument_list(
                                function@,
                                child.inner@.subrange(j as int, child.inner@.len() as int),
                            ),
                        decreases child.inner@.len() - j,
                    {
                        let ghost args = child.inner@.subrange(j as int, child.inner@.len() as int);
                        assert(args.drop_first() =~= child.inner@.subrange(
                            j + 1,
                            child.inner@.len() as int,
                        ));
                        let arg = &child.inner[j];
                        match arg.rule {
                            Rule::fn_arg | Rule::fn_arg_out => {
                                let mut out = false;
                                let mut typename = IceType::VoidType;
                                let mut id = String::new();
                                assert(arg.inner@.subrange(0, arg.inner@.len() as int)
                                    =~= arg.inner@);
                                let mut k: usize = 0;
                                while k < arg.inner.len()
                                    invariant
                                        0 <= k <= arg.inner@.len(),
                                        i < pairs@.len(),
                                        *child == pairs@[i as int],
                                        child.rule == Rule::fn_arg_list,
                                        function_of(pairs@) == function_nodes(
                                            start,
                                            pairs@.subrange(i as int, pairs@.len() as int),
                                        ),
                                        j < child.inner@.len(),
                                        *arg == child.inner@[j as int],
                                        arg.rule == Rule::fn_arg || arg.rule == Rule::fn_arg_out,
                                        argument_list(start, child.inner@) == argument_list(
                                            function@,
                                            child.inner@.subrange(
                                                j as int,
                                                child.inner@.len() as int,
                                            ),
                                        ),
                                        argument_line(
                                            (IceTypeView::Void, Seq::empty(), false),
                                            arg.inner@,
                                        ) == argument_line(
                                            (typename@, id@, out),
                                            arg.inner@.subrange(k as int, arg.inner@.len() as int),
                                        ),
                                    decreases arg.inner@.len() - k,
                                {
                                    let ghost items = arg.inner@.subrange(
                                        k as int,
                                        arg.inner@.len() as int,
                                    );
                                    assert(items.drop_first() =~= arg.inner@.subrange(
                                        k + 1,
                                        arg.inner@.len() as int,
                                    ));
                                    let item = &arg.inner[k];
                                    match item.rule {
                                        Rule::typename => {
                                            match IceType::from(item.text.as_str()) {
                                                Ok(t) => {
                                                    typename = t;
                                                },
                                                Err(e) => {
                                                    return Err(e);
                                                },
                                            }
                                        },
                                        Rule::identifier => {
                                            id = item.text.clone();
                                        },
                                        Rule::keyword_out => {
                                            out = true;
                                        },
                                        _ => {
                                            return Err(Error::ParsingError);
                                        },
                                    }
                                    k = k + 1;
                                }
                                assert(arg.inner@.subrange(k as int, arg.inner@.len() as int)
                                    =~= Seq::<Pair>::empty());
                                function.add_argument(id.as_str(), typename.clone(), out);
                            },
                            _ => {
                                return Err(Error::ParsingError);
                            },
                        }
                        j = j + 1;
                    }
                    assert(child.inner@.subrange(j as int, child.inner@.len() as int) =~= Seq::<
                        Pair,
                    >::empty());
                },
                _ => {
                    return Err(Error::ParsingError);
                },
            }
            i = i + 1;
        }
        assert(pairs@.subrange(i as int, pairs@.len() as int) =~= Seq::<Pair>::empty());
        Ok(function)
    }
}

} // verus!
