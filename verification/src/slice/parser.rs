use vstd::prelude::*;

use crate::errors::Error;

verus! {

/// The rules of the slice grammar that a parse tree names.
#[allow(non_camel_case_types)]
#[derive(Clone, Copy, Debug, PartialEq, Eq, Structural)]
pub enum Rule {
    ice,
    EOI,
    module_block,
    keyword_module,
    identifier,
    block_open,
    block_close,
    any_block,
    enum_block,
    struct_block,
    interface_block,
    typedef,
    typename,
    typedef_end,
    keyword_enum,
    enum_lines,
    enum_line,
    numeric_value,
    keyword_struct,
    struct_line,
    struct_line_end,
    keyword_interface,
    function,
    fn_return,
    fn_name,
    fn_arg_open,
    fn_arg_list,
    fn_arg,
    fn_arg_out,
    keyword_out,
    fn_arg_close,
    fn_throws,
}

/// A node of a parse tree: the rule it matched, the text it spans, and the nodes the
/// rule is made of, in order.
#[derive(Debug)]
pub struct Pair {
    pub rule: Rule,
    pub text: String,
    pub inner: Vec<Pair>,
}

/// A declaration that can be read from the nodes of its parse tree.
pub trait ParsedObject: Sized {
    fn parse(pairs: &[Pair]) -> Result<Self, Error>;
}

} // verus!
