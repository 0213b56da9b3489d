use vstd::prelude::*;

use crate::errors::{Error, ParsingError};
use crate::slice::enumeration::{enum_of, enum_text, Enum, EnumView};
use crate::slice::exception::{exception_text, Exception, ExceptionView};
use crate::slice::interface::{interface_of, interface_text, Interface, InterfaceView};
use crate::slice::names::{snake_case, to_snake_case};
use crate::slice::parser::{Pair, ParsedObject, Rule};
use crate::slice::struct_decl::{struct_of, struct_text, Struct, StructView};
use crate::slice::types::{named_types_view, rust_type_text, type_of_text, IceType, IceTypeView};
use crate::slice::writer::{indented, lemma_append_assoc, texts, write_line, write_line_if};

verus! {

/// A slice module: nested modules and the declarations it holds.
pub struct Module {
    pub name: String,
    pub full_name: String,
    sub_modules: Vec<Module>,
    enumerations: Vec<Enum>,
    exceptions: Vec<Exception>,
    structs: Vec<Struct>,
    interfaces: Vec<Interface>,
    typedefs: Vec<(String, IceType)>,
}

/// A module as a value.
#[verifier::ext_equal]
pub struct ModuleView {
    pub name: Seq<char>,
    pub full_name: Seq<char>,
    pub sub_modules: Seq<ModuleView>,
    pub enumerations: Seq<EnumView>,
    pub exceptions: Seq<ExceptionView>,
    pub structs: Seq<StructView>,
    pub interfaces: Seq<InterfaceView>,
    pub typedefs: Seq<(Seq<char>, IceTypeView)>,
}

/// A module with the given names that declares nothing.
pub open spec fn bare_module(name: Seq<char>, full_name: Seq<char>) -> ModuleView {
    ModuleView {
        name: name,
        full_name: full_name,
        sub_modules: Seq::empty(),
        enumerations: Seq::empty(),
        exceptions: Seq::empty(),
        structs: Seq::empty(),
        interfaces: Seq::empty(),
        typedefs: Seq::empty(),
    }
}

/// Whether one of the aliases names a dictionary type.
pub open spec fn has_dict_alias(typedefs: Seq<(Seq<char>, IceTypeView)>) -> bool {
    exists|i: int| 0 <= i < typedefs.len() && (#[trigger] typedefs[i]).1 is Dict
}

/// The full path of a module nested directly in one whose full path is `parent`.
pub open spec fn nested_path(parent: Seq<char>, name: Seq<char>) -> Seq<char> {
    parent + "::"@ + name
}

/// The module with its name and full path set.
pub open spec fn with_names(m: ModuleView, name: Seq<char>, full_name: Seq<char>) -> ModuleView {
    ModuleView {
        name: name,
        full_name: full_name,
        sub_modules: m.sub_modules,
        enumerations: m.enumerations,
        exceptions: m.exceptions,
        structs: m.structs,
        interfaces: m.interfaces,
        typedefs: m.typedefs,
    }
}

/// The module with one more nested module.
pub open spec fn with_sub_module(m: ModuleView, sub: ModuleView) -> ModuleView {
    ModuleView { sub_modules: m.sub_modules.push(sub), ..m }
}

/// The module with one more enumeration.
pub open spec fn with_enum(m: ModuleView, e: EnumView) -> ModuleView {
    ModuleView { enumerations: m.enumerations.push(e), ..m }
}

/// The module with one more exception.
pub open spec fn with_exception(m: ModuleView, e: ExceptionView) -> ModuleView {
    ModuleView { exceptions: m.exceptions.push(e), ..m }
}

/// The module with one more structure.
pub open spec fn with_struct(m: ModuleView, s: StructView) -> ModuleView {
    ModuleView { structs: m.structs.push(s), ..m }
}

/// The module with one more interface.
pub open spec fn with_interface(m: ModuleView, i: InterfaceView) -> ModuleView {
    ModuleView { interfaces: m.interfaces.push(i), ..m }
}

/// The module with one more type alias.
pub open spec fn with_typedef(m: ModuleView, id: Seq<char>, t: IceTypeView) -> ModuleView {
    ModuleView { typedefs: m.typedefs.push((id, t)), ..m }
}

impl Module {
    /// The module's name.
    pub closed spec fn declared_name(&self) -> Seq<char> {
        self.name@
    }

    /// The module's full path, each step written `::name`.
    pub closed spec fn path(&self) -> Seq<char> {
        self.full_name@
    }

    /// The nested modules in declaration order.
    pub closed spec fn sub_modules(&self) -> Seq<Module> {
        self.sub_modules@
    }

    /// The enumerations in declaration order.
    pub closed spec fn enumerations(&self) -> Seq<Enum> {
        self.enumerations@
    }

    /// The exceptions in declaration order.
    pub closed spec fn exceptions(&self) -> Seq<Exception> {
        self.exceptions@
    }

    /// The structures in declaration order.
    pub closed spec fn structs(&self) -> Seq<Struct> {
        self.structs@
    }

    /// The interfaces in declaration order.
    pub closed spec fn interfaces(&self) -> Seq<Interface> {
        self.interfaces@
    }

    /// The type aliases in declaration order.
    pub closed spec fn typedefs(&self) -> Seq<(String, IceType)> {
        self.typedefs@
    }

    /// A nested module is smaller than the module that holds it.
    pub proof fn lemma_sub_module_decreases(m: Module, i: int)
        requires
            0 <= i < m.sub_modules().len(),
        ensures
            decreases_to!(m => m.sub_modules()[i]),
    {
        assert(decreases_to!(m => m.sub_modules));
        assert(decreases_to!(m.sub_modules => m.sub_modules@));
        assert(decreases_to!(m.sub_modules@ => m.sub_modules@[i]));
    }
}

/// The value of a module.
pub open spec fn module_view(m: Module) -> ModuleView
    decreases m,
{
    ModuleView {
        name: m.declared_name(),
        full_name: m.path(),
        sub_modules: Seq::new(
            m.sub_modules().len(),
            |i: int|
                if 0 <= i < m.sub_modules().len() {
                    proof {
                        Module::lemma_sub_module_decreases(m, i);
                    }
                    module_view(m.sub_modules()[i])
                } else {
                    bare_module(Seq::empty(), Seq::empty())
                },
        ),
        enumerations: m.enumerations().map_values(|e: Enum| e@),
        exceptions: m.exceptions().map_values(|e: Exception| e@),
        structs: m.structs().map_values(|s: Struct| s@),
        interfaces: m.interfaces().map_values(|i: Interface| i@),
        typedefs: named_types_view(m.typedefs()),
    }
}

impl View for Module {
    type V = ModuleView;

    open spec fn view(&self) -> ModuleView {
        module_view(*self)
    }
}

/// What reading an alias leaves: the module so far, and the type and name last read.
pub type AliasLine = (ModuleView, IceTypeView, Seq<char>);

/// Reads the nodes of a type alias, left to right: a type, a name, and the alias's
/// end, which adds it to the module; any other node is refused.
pub open spec fn alias_line(state: AliasLine, items: Seq<Pair>) -> Option<AliasLine>
    decreases items.len(),
{
    if items.len() == 0 {
        Some(state)
    } else {
        let item = items[0];
        let (m, t, id) = state;
        let next = match item.rule {
            Rule::typename => match type_of_text(item.text@) {
                Some(t2) => Some((m, t2, id)),
                None => None,
            },
            Rule::identifier => Some((m, t, item.text@)),
            Rule::typedef_end => Some((with_typedef(m, id, t), t, id)),
            _ => None,
        };
        match next {
            Some(n) => alias_line(n, items.drop_first()),
            None => None,
        }
    }
}

/// Reads the blocks of a module, left to right, into `m`: nested modules (whose full
/// path is set from `m`'s), enumerations, structures and interfaces.
pub open spec fn module_blocks(m: ModuleView, blocks: Seq<Pair>) -> Option<ModuleView>
    decreases blocks,
{
    if blocks.len() == 0 {
        Some(m)
    } else {
        let block = blocks[0];
        proof {
            assert(decreases_to!(blocks => blocks[0]));
            assert(decreases_to!(block => block.inner));
            assert(decreases_to!(block.inner => block.inner@));
            assert(decreases_to!(blocks => blocks.subrange(1, blocks.len() as int)));
        }
        let next = match block.rule {
            Rule::module_block => match module_nodes(
                bare_module(Seq::empty(), Seq::empty()),
                block.inner@,
            ) {
                Some(sub) => Some(
                    with_sub_module(
                        m,
                        with_names(sub, sub.name, nested_path(m.full_name, sub.name)),
                    ),
                ),
                None => None,
            },
            Rule::enum_block => match enum_of(block.inner@) {
                Some(e) => Some(with_enum(m, e)),
                None => None,
            },
            Rule::struct_block => match struct_of(block.inner@) {
                Some(st) => Some(with_struct(m, st)),
                None => None,
            },
            Rule::interface_block => match interface_of(block.inner@) {
                Some(i) => Some(with_interface(m, i)),
                None => None,
            },
            _ => None,
        };
        match next {
            Some(n) => module_blocks(n, blocks.subrange(1, blocks.len() as int)),
            None => None,
        }
    }
}

/// Reads the nodes of a module, left to right, into `m`: its name (which also sets its
/// full path to `::name`), its blocks, and its type aliases.
pub open spec fn module_nodes(m: ModuleView, pairs: Seq<Pair>) -> Option<ModuleView>
    decreases pairs,
{
    if pairs.len() == 0 {
        Some(m)
    } else {
        let child = pairs[0];
        proof {
            assert(decreases_to!(pairs => pairs[0]));
            assert(decreases_to!(child => child.inner));
            assert(decreases_to!(child.inner => child.inner@));
            assert(decreases_to!(pairs => pairs.subrange(1, pairs.len() as int)));
        }
        let next = match child.rule {
            Rule::keyword_module | Rule::block_open | Rule::block_close => Some(m),
            Rule::identifier => Some(with_names(m, child.text@, "::"@ + child.text@)),
            Rule::any_block => module_blocks(m, child.inner@),
            Rule::typedef => match alias_line((m, IceTypeView::Void, Seq::empty()), child.inner@) {
                Some(state) => Some(state.0),
                None => None,
            },
            _ => None,
        };
        match next {
            Some(n) => module_nodes(n, pairs.subrange(1, pairs.len() as int)),
            None => None,
        }
    }
}

/// The module a block's nodes declare, or `None` where they are refused.
pub open spec fn module_of(pairs: Seq<Pair>) -> Option<ModuleView> {
    module_nodes(bare_module(Seq::empty(), Seq::empty()), pairs)
}

/// Where reading a whole document stands.
pub enum DocumentState {
    /// Reading goes on with the root so far.
    Reading(ModuleView),
    /// The end of input was reached, with this root.
    Done(ModuleView),
    /// A node was refused.
    Refused,
}

/// Reads the nodes of a document's body, left to right: modules, added to `root`,
/// until the end of input.
pub open spec fn document_body(root: ModuleView, children: Seq<Pair>) -> DocumentState
    decreases children.len(),
{
    if children.len() == 0 {
        DocumentState::Reading(root)
    } else {
        let child = children[0];
        match child.rule {
            Rule::module_block => match module_of(child.inner@) {
                Some(m) => document_body(with_sub_module(root, m), children.drop_first()),
                None => DocumentState::Refused,
            },
            Rule::EOI => DocumentState::Done(root),
            _ => DocumentState::Refused,
        }
    }
}

/// Reads the top nodes of a document, left to right.
pub open spec fn document_nodes(root: ModuleView, pairs: Seq<Pair>) -> DocumentState
    decreases pairs.len(),
{
    if pairs.len() == 0 {
        DocumentState::Reading(root)
    } else {
        let pair = pairs[0];
        match pair.rule {
            Rule::ice => match document_body(root, pair.inner@) {
                DocumentState::Reading(r) => document_nodes(r, pairs.drop_first()),
                other => other,
            },
            _ => DocumentState::Refused,
        }
    }
}

/// The root module a document's nodes declare: its modules, up to the end of input;
/// `None` where a node is refused or the end of input never comes.
pub open spec fn document_of(pairs: Seq<Pair>) -> Option<ModuleView> {
    match document_nodes(bare_module(Seq::empty(), Seq::empty()), pairs) {
        DocumentState::Done(root) => Some(root),
        _ => None,
    }
}

impl Module {
    /// A module with empty names that declares nothing.
    pub fn new() -> (m: Module)
        ensures
            m@ == bare_module(Seq::empty(), Seq::empty()),
    {
        let m = Module {
            name: String::new(),
            full_name: String::new(),
            sub_modules: Vec::new(),
            enumerations: Vec::new(),
            exceptions: Vec::new(),
            structs: Vec::new(),
            interfaces: Vec::new(),
            typedefs: Vec::new(),
        };
        assert(m@.enumerations =~= Seq::empty());
        assert(m@.exceptions =~= Seq::empty());
        assert(m@.structs =~= Seq::empty());
        assert(m@.interfaces =~= Seq::empty());
        assert(m@.typedefs =~= Seq::empty());
        assert(m@.sub_modules =~= Seq::empty());
        assert(m@ =~= bare_module(Seq::empty(), Seq::empty()));
        m
    }

    /// Whether one of the type aliases names a dictionary type.
    pub fn has_dict(&self) -> (b: bool)
        ensures
            b == has_dict_alias(self@.typedefs),
    {
        let mut i: usize = 0;
        while i < self.typedefs.len()
            invariant
                0 <= i <= self.typedefs@.len(),
                forall|j: int| 0 <= j < i ==> (#[trigger] self.typedefs@[j]).1 !is DictType,
            decreases self.typedefs@.len() - i,
        {
            match &self.typedefs[i].1 {
                IceType::DictType(_, _) => {
                    assert(self@.typedefs[i as int].1 is Dict);
                    return true;
                },
                _ => {},
            }
            i = i + 1;
        }
        assert forall|j: int| 0 <= j < self@.typedefs.len() implies (#[trigger] self@.typedefs[j]).1 !is Dict by {
            assert(self.typedefs@[j].1 !is DictType);
        }
        false
    }

    /// The snake_case form of the module's name.
    pub fn snake_name(&self) -> (s: String)
        ensures
            s@ == snake_case(self@.name),
    {
        to_snake_case(self.name.as_str())
    }

    /// Appends a nested module.
    pub fn add_module(&mut self, module: Module)
        ensures
            final(self)@ == with_sub_module(old(self)@, module@),
    {
        self.sub_modules.push(module);
        proof {
            assert(self@.sub_modules =~= old(self)@.sub_modules.push(module@));
            assert(self@ =~= with_sub_module(old(self)@, module@));
        }
    }

    /// Appends a nested module named `name` that declares nothing, and hands it back
    /// for filling in; an empty name is refused.
    pub fn add_sub_module(&mut self, name: &str) -> (r: Result<&mut Module, ParsingError>)
        ensures
            name@.len() == 0 ==> r is Err && *final(self) == *old(self),
            name@.len() != 0 ==> r is Ok,
            r matches Ok(m) ==> {
                &&& m@ == bare_module(name@, nested_path(old(self)@.full_name, name@))
                &&& final(self).declared_name() == old(self).declared_name()
                &&& final(self).path() == old(self).path()
                &&& final(self).sub_modules() == old(self).sub_modules().push(*final(m))
                &&& final(self).enumerations() == old(self).enumerations()
                &&& final(self).exceptions() == old(self).exceptions()
                &&& final(self).structs() == old(self).structs()
                &&& final(self).interfaces() == old(self).interfaces()
                &&& final(self).typedefs() == old(self).typedefs()
            },
    {
        if name.is_empty() {
            return Err(ParsingError {});
        }
        let mut full_name = self.full_name.clone();
        full_name.append("::");
        full_name.append(name);
        let m = Module {
            name: name.to_owned(),
            full_name: full_name,
            sub_modules: Vec::new(),
            enumerations: Vec::new(),
            exceptions: Vec::new(),
            structs: Vec::new(),
            interfaces: Vec::new(),
            typedefs: Vec::new(),
        };
        assert(m@.enumerations =~= Seq::empty());
        assert(m@.exceptions =~= Seq::empty());
        assert(m@.structs =~= Seq::empty());
        assert(m@.interfaces =~= Seq::empty());
        assert(m@.typedefs =~= Seq::empty());
        assert(m@.sub_modules =~= Seq::empty());
        assert(m@ =~= bare_module(name@, nested_path(self@.full_name, name@)));
        self.sub_modules.push(m);
        let last = self.sub_modules.len() - 1;
        Ok(&mut self.sub_modules[last])
    }

    /// Appends an enumeration.
    pub fn add_enum(&mut self, enumeration: Enum)
        ensures
            final(self)@ == with_enum(old(self)@, enumeration@),
    {
        self.enumerations.push(enumeration);
        proof {
            assert(self@.enumerations =~= old(self)@.enumerations.push(enumeration@));
            assert(self@.sub_modules =~= old(self)@.sub_modules);
            assert(self@ =~= with_enum(old(self)@, enumeration@));
        }
    }

    /// Appends a structure.
    pub fn add_struct(&mut self, struct_decl: Struct)
        ensures
            final(self)@ == with_struct(old(self)@, struct_decl@),
    {
        self.structs.push(struct_decl);
        proof {
            assert(self@.structs =~= old(self)@.structs.push(struct_decl@));
            assert(self@.sub_modules =~= old(self)@.sub_modules);
            assert(self@ =~= with_struct(old(self)@, struct_decl@));
        }
    }

    /// Appends an interface.
    pub fn add_interface(&mut self, interface: Interface)
        ensures
            final(self)@ == with_interface(old(self)@, interface@),
    {
        self.interfaces.push(interface);
        proof {
            assert(self@.interfaces =~= old(self)@.interfaces.push(interface@));
            assert(self@.sub_modules =~= old(self)@.sub_modules);
            assert(self@ =~= with_interface(old(self)@, interface@));
        }
    }

    /// Appends an exception.
    pub fn add_exception(&mut self, exception: Exception)
        ensures
            final(self)@ == with_exception(old(self)@, exception@),
    {
        self.exceptions.push(exception);
        proof {
            assert(self@.exceptions =~= old(self)@.exceptions.push(exception@));
            assert(self@.sub_modules =~= old(self)@.sub_modules);
            assert(self@ =~= with_exception(old(self)@, exception@));
        }
    }

    /// Appends a type alias: `id` stands for `vartype`.
    pub fn add_typedef(&mut self, id: &str, vartype: IceType)
        ensures
            final(self)@ == with_typedef(old(self)@, id@, vartype@),
    {
        self.typedefs.push((id.to_owned(), vartype));
        proof {
            assert(self@.typedefs =~= old(self)@.typedefs.push((id@, vartype@)));
            assert(self@.sub_modules =~= old(self)@.sub_modules);
            assert(self@ =~= with_typedef(old(self)@, id@, vartype@));
        }
    }
}

impl ParsedObject for Module {
    /// Reads a module from the nodes of its block: its name (its full path becomes
    /// `::name`), then its blocks (nested modules, whose full path is set from this
    /// one's, enumerations, structures, interfaces) and type aliases.
    #[verifier::spinoff_prover]
    fn parse(pairs: &[Pair]) -> (r: Result<Module, Error>)
        ensures
            r is Ok <==> module_of(pairs@) is Some,
            r matches Ok(m) ==> module_of(pairs@) == Some(m@),
            r is Err ==> r == Err::<Module, Error>(Error::ParsingError),
        decreases pairs@,
    {
        let mut module = Module::new();
        assert(pairs@.subrange(0, pairs@.len() as int) =~= pairs@);
        let mut i: usize = 0;
        while i < pairs.len()
            invariant
                0 <= i <= pairs@.len(),
                module_of(pairs@) == module_nodes(
                    module@,
                    pairs@.subrange(i as int, pairs@.len() as int),
                ),
            decreases pairs@.len() - i,
        {
            let ghost rest = pairs@.subrange(i as int, pairs@.len() as int);
            assert(rest.subrange(1, rest.len() as int) =~= pairs@.subrange(
                i + 1,
                pairs@.len() as int,
            ));
            let child = &pairs[i];
            match child.rule {
                Rule::keyword_module | Rule::block_open | Rule::block_close => {},
                Rule::identifier => {
                    let ghost before = module@;
                    module.name = child.text.clone();
                    let mut full_name = "::".to_owned();
                    full_name.append(child.text.as_str());
                    module.full_name = full_name;
                    proof {
                        assert(module@.sub_modules =~= before.sub_modules);
                        assert(module@ =~= with_names(before, child.text@, "::"@ + child.text@));
                    }
                },
                Rule::any_block => {
                    let ghost start = module@;
                    assert(child.inner@.subrange(0, child.inner@.len() as int) =~= child.inner@);
                    let mut j: usize = 0;
                    while j < child.inner.len()
                        invariant
                            0 <= j <= child.inner@.len(),
                            i < pairs@.len(),
                            *child == pairs@[i as int],
                            child.rule == Rule::any_block,
                            module_of(pairs@) == module_nodes(
                                start,
                                pairs@.subrange(i as int, pairs@.len() as int),
                            ),
                            module_blocks(start, child.inner@) == module_blocks(
                                module@,
                                child.inner@.subrange(j as int, child.inner@.len() as int),
                            ),
                        decreases child.inner@.len() - j,
                    {
                        let ghost blocks = child.inner@.subrange(
                            j as int,
                            child.inner@.len() as int,
                        );
                        assert(blocks.subrange(1, blocks.len() as int) =~= child.inner@.subrange(
                            j + 1,
                            child.inner@.len() as int,
                        ));
                        let block = &child.inner[j];
                        match block.rule {
                            Rule::module_block => {
                                proof {
                                    assert(decreases_to!(pairs@ => pairs@[i as int]));
                                    assert(decreases_to!(pairs@[i as int] => pairs@[i as int].inner));
                                    assert(decreases_to!(pairs@[i as int].inner => pairs@[i as int].inner@));
                                    assert(decreases_to!(child.inner@ => child.inner@[j as int]));
                                    assert(decreases_to!(child.inner@[j as int] => child.inner@[j as int].inner));
                                    assert(decreases_to!(child.inner@[j as int].inner => child.inner@[j as int].inner@));
                                }
                                match Module::parse(block.inner.as_slice()) {
                                    Ok(sub) => {
                                        let mut sub = sub;
                                        let mut full_name = module.full_name.clone();
                                        full_name.append("::");
                                        full_name.append(sub.name.as_str());
                                        let ghost parsed = sub@;
                                        sub.full_name = full_name;
                                        proof {
                                            assert(sub@.sub_modules =~= parsed.sub_modules);
                                            assert(sub@ =~= with_names(
                                                parsed,
                                                parsed.name,
                                                nested_path(module@.full_name, parsed.name),
                                            ));
                                        }
                                        module.add_module(sub);
                                    },
                                    Err(e) => {
                                        return Err(e);
                                    },
                                }
                            },
                            Rule::enum_block => {
                                match Enum::parse(block.inner.as_slice()) {
                                    Ok(e) => {
                                        module.add_enum(e);
                                    },
                                    Err(e) => {
                                        return Err(e);
                                    },
                                }
                            },
                            Rule::struct_block => {
                                match Struct::parse(block.inner.as_slice()) {
                                    Ok(st) => {
                                        module.add_struct(st);
                                    },
                                    Err(e) => {
                                        return Err(e);
                                    },
                                }
                            },
                            Rule::interface_block => {
                                match Interface::parse(block.inner.as_slice()) {
                                    Ok(itf) => {
                                        module.add_interface(itf);
                                    },
                                    Err(e) => {
                                        return Err(e);
                                    },
                                }
                            },
                            _ => {
                                return Err(Error::ParsingError);
                            },
                        }
                        j = j + 1;
                    }
                    assert(child.inner@.subrange(j as int, child.inner@.len() as int) =~= Seq::<
                        Pair,
                    >::empty());
                },
                Rule::typedef => {
                    let mut vartype = IceType::VoidType;
                    let mut id = String::new();
                    let ghost start = module@;
                    assert(child.inner@.subrange(0, child.inner@.len() as int) =~= child.inner@);
                    let mut k: usize = 0;
                    while k < child.inner.len()
                        invariant
                            0 <= k <= child.inner@.len(),
                            i < pairs@.len(),
                            *child == pairs@[i as int],
                            child.rule == Rule::typedef,
                            module_of(pairs@) == module_nodes(
                                start,
                                pairs@.subrange(i as int, pairs@.len() as int),
                            ),
                            alias_line((start, IceTypeView::Void, Seq::empty()), child.inner@)
                                == alias_line(
                                (module@, vartype@, id@),
                                child.inner@.subrange(k as int, child.inner@.len() as int),
                            ),
                        decreases child.inner@.len() - k,
                    {
                        let ghost items = child.inner@.subrange(k as int, child.inner@.len() as int);
                        assert(items.drop_first() =~= child.inner@.subrange(
                            k + 1,
                            child.inner@.len() as int,
                        ));
                        let item = &child.inner[k];
                        match item.rule {
                            Rule::typename => {
                                match IceType::from(item.text.as_str()) {
                                    Ok(t) => {
                                        vartype = t;
                                    },
                                    Err(e) => {
                                        return Err(e);
                                    },
                                }
                            },
                            Rule::identifier => {
                                id = item.text.clone();
                            },
                            Rule::typedef_end => {
                                module.add_typedef(id.as_str(), vartype.clone());
                            },
                            _ => {
                                return Err(Error::ParsingError);
                            },
                        }
                        k = k + 1;
                    }
                    assert(child.inner@.subrange(k as int, child.inner@.len() as int) =~= Seq::<
                        Pair,
                    >::empty());
                },
                _ => {
                    return Err(Error::ParsingError);
                },
            }
            i = i + 1;
        }
        assert(pairs@.subrange(i as int, pairs@.len() as int) =~= Seq::<Pair>::empty());
        Ok(module)
    }
}

impl Module {
    /// Reads the root module of a slice document from the top nodes of its parse tree:
    /// the modules of the document's body, up to the end of input.  Refuses any other
    /// node, and a tree that never reaches the end of input.
    #[verifier::spinoff_prover]
    pub fn from_document(pairs: &[Pair]) -> (r: Result<Module, Error>)
        ensures
            r is Ok <==> document_of(pairs@) is Some,
            r matches Ok(m) ==> document_of(pairs@) == Some(m@),
            r is Err ==> r == Err::<Module, Error>(Error::ParsingError),
    {
        let mut root = Module::new();
        let ghost first = root@;
        assert(pairs@.subrange(0, pairs@.len() as int) =~= pairs@);
        let mut i: usize = 0;
        while i < pairs.len()
            invariant
                0 <= i <= pairs@.len(),
                first == bare_module(Seq::empty(), Seq::empty()),
                document_nodes(first, pairs@) == document_nodes(
                    root@,
                    pairs@.subrange(i as int, pairs@.len() as int),
                ),
            decreases pairs@.len() - i,
        {
            let ghost rest = pairs@.subrange(i as int, pairs@.len() as int);
            assert(rest.drop_first() =~= pairs@.subrange(i + 1, pairs@.len() as int));
            let pair = &pairs[i];
            match pair.rule {
                Rule::ice => {
                    let ghost start = root@;
                    assert(pair.inner@.subrange(0, pair.inner@.len() as int) =~= pair.inner@);
                    let mut j: usize = 0;
                    while j < pair.inner.len()
                        invariant
                            0 <= j <= pair.inner@.len(),
                            i < pairs@.len(),
                            *pair == pairs@[i as int],
                            pair.rule == Rule::ice,
                            first == bare_module(Seq::empty(), Seq::empty()),
                            document_nodes(first, pairs@) == document_nodes(
                                start,
                                pairs@.subrange(i as int, pairs@.len() as int),
                            ),
                            document_body(start, pair.inner@) == document_body(
                                root@,
                                pair.inner@.subrange(j as int, pair.inner@.len() as int),
                            ),
                        decreases pair.inner@.len() - j,
                    {
                        let ghost children = pair.inner@.subrange(
                            j as int,
                            pair.inner@.len() as int,
                        );
                        assert(children.drop_first() =~= pair.inner@.subrange(
                            j + 1,
                            pair.inner@.len() as int,
                        ));
                        let child = &pair.inner[j];
                        match child.rule {
                            Rule::module_block => {
                                match Module::parse(child.inner.as_slice()) {
                                    Ok(m) => {
                                        root.add_module(m);
                                    },
                                    Err(e) => {
                                        return Err(e);
                                    },
                                }
                            },
                            Rule::EOI => {
                                return Ok(root);
                            },
                            _ => {
                                return Err(Error::ParsingError);
                            },
                        }
                        j = j + 1;
                    }
                    assert(pair.inner@.subrange(j as int, pair.inner@.len() as int) =~= Seq::<
                        Pair,
                    >::empty());
                },
                _ => {
                    return Err(Error::ParsingError);
                },
            }
            i = i + 1;
        }
        assert(pairs@.subrange(i as int, pairs@.len() as int) =~= Seq::<Pair>::empty());
        Err(Error::ParsingError)
    }
}

/// The `pub mod` lines of nested modules.
pub open spec fn sub_modules_text(subs: Seq<ModuleView>) -> Seq<char>
    decreases subs.len(),
{
    if subs.len() == 0 {
        Seq::empty()
    } else {
        sub_modules_text(subs.drop_last()) + indented(
            "pub mod "@ + snake_case(subs.last().name) + ";\n"@,
            0,
        )
    }
}

/// The `type` lines of type aliases.
pub open spec fn typedefs_text(typedefs: Seq<(Seq<char>, IceTypeView)>) -> Seq<char>
    decreases typedefs.len(),
{
    if typedefs.len() == 0 {
        Seq::empty()
    } else {
        let t = typedefs.last();
        typedefs_text(typedefs.drop_last()) + indented(
            "type "@ + t.0 + " = "@ + rust_type_text(t.1) + ";\n"@,
            0,
        )
    }
}

/// The generated sources of enumerations, in order.
pub open spec fn enums_text(es: Seq<EnumView>) -> Seq<char>
    decreases es.len(),
{
    if es.len() == 0 {
        Seq::empty()
    } else {
        enums_text(es.drop_last()) + enum_text(es.last())
    }
}

/// The generated sources of structures, in order.
pub open spec fn structs_text(ss: Seq<StructView>) -> Seq<char>
    decreases ss.len(),
{
    if ss.len() == 0 {
        Seq::empty()
    } else {
        structs_text(ss.drop_last()) + struct_text(ss.last())
    }
}

/// The generated sources of exceptions, in order.
pub open spec fn exceptions_text(es: Seq<ExceptionView>) -> Seq<char>
    decreases es.len(),
{
    if es.len() == 0 {
        Seq::empty()
    } else {
        exceptions_text(es.drop_last()) + exception_text(es.last())
    }
}

/// The generated sources of interfaces of the module at `path`, in order.
pub open spec fn interfaces_text(
    is: Seq<InterfaceView>,
    path: Seq<char>,
    context: Seq<char>,
) -> Seq<char>
    decreases is.len(),
{
    if is.len() == 0 {
        Seq::empty()
    } else {
        interfaces_text(is.drop_last(), path, context) + interface_text(is.last(), path, context)
    }
}

/// A line where `cond` holds, nothing elsewhere.
pub open spec fn line_if(cond: bool, line: Seq<char>) -> Seq<char> {
    if cond {
        indented(line, 0)
    } else {
        Seq::empty()
    }
}

/// The `mod.rs` generated for a module: the `use` lines its declarations need, in
/// sorted order, the nested modules, the type aliases, then the generated source of its
/// enumerations, structures, exceptions and interfaces.
pub open spec fn module_text(m: ModuleView, context: Seq<char>) -> Seq<char> {
    let enums = m.enumerations.len() > 0;
    let structs = m.structs.len() > 0;
    let interfaces = m.interfaces.len() > 0;
    indented("// This file has been generated.\n\n"@, 0) + line_if(
        enums,
        "use ice_rs::encoding::IceSize;\n"@,
    ) + line_if(enums || structs, "use ice_rs::encoding::{\n   ToBytes, FromBytes\n};\n"@)
        + line_if(enums || structs || interfaces, "use ice_rs::errors::*;\n"@) + line_if(
        interfaces,
        "use ice_rs::iceobject::IceObject;\n"@,
    ) + line_if(interfaces, "use ice_rs::protocol::{Encapsulation, ReplyData};\n"@) + line_if(
        interfaces,
        "use ice_rs::proxy::Proxy;\n"@,
    ) + line_if(enums, "use num_enum::TryFromPrimitive;\n"@) + line_if(
        has_dict_alias(m.typedefs),
        "use std::collections::HashMap;\n"@,
    ) + line_if(enums, "use std::convert::TryFrom;\n"@) + sub_modules_text(m.sub_modules)
        + indented("\n"@, 0) + typedefs_text(m.typedefs) + indented("\n"@, 0) + enums_text(
        m.enumerations,
    ) + indented("\n"@, 0) + structs_text(m.structs) + exceptions_text(m.exceptions) + indented(
        "\n"@,
        0,
    ) + interfaces_text(m.interfaces, m.full_name, context)
}

/// A generated file: the directory it goes in, as steps below the destination, and
/// its content.
pub struct GeneratedFile {
    pub dir: Vec<String>,
    pub content: String,
}

impl View for GeneratedFile {
    type V = (Seq<Seq<char>>, Seq<char>);

    open spec fn view(&self) -> (Seq<Seq<char>>, Seq<char>) {
        (texts(self.dir@), self.content@)
    }
}

/// Generated files as values.
pub open spec fn files_view(files: Seq<GeneratedFile>) -> Seq<(Seq<Seq<char>>, Seq<char>)> {
    files.map_values(|f: GeneratedFile| f@)
}

/// The files generated for a module placed in `dir`: its `mod.rs`, then, for each
/// nested module in order, the files generated for it in a directory of its own named
/// by its snake_case name.
pub open spec fn module_files(m: ModuleView, dir: Seq<Seq<char>>, context: Seq<char>) -> Seq<
    (Seq<Seq<char>>, Seq<char>),
>
    decreases m,
{
    proof {
        assert(decreases_to!(m => m.sub_modules));
    }
    seq![(dir, module_text(m, context))] + nested_files(m.sub_modules, dir, context)
}

/// The files generated for nested modules of a module placed in `dir`.
pub open spec fn nested_files(subs: Seq<ModuleView>, dir: Seq<Seq<char>>, context: Seq<char>) -> Seq<
    (Seq<Seq<char>>, Seq<char>),
>
    decreases subs,
{
    if subs.len() == 0 {
        Seq::empty()
    } else {
        proof {
            assert(decreases_to!(subs => subs[subs.len() - 1]));
            assert(decreases_to!(subs => subs.subrange(0, subs.len() - 1)));
        }
        nested_files(subs.subrange(0, subs.len() - 1), dir, context) + module_files(
            subs[subs.len() - 1],
            dir.push(snake_case(subs[subs.len() - 1].name)),
            context,
        )
    }
}

/// The number of modules in a module's tree, itself included.
pub open spec fn module_count(m: ModuleView) -> nat
    decreases m,
{
    proof {
        assert(decreases_to!(m => m.sub_modules));
    }
    1 + nested_count(m.sub_modules)
}

/// The number of modules in the trees of nested modules.
pub open spec fn nested_count(subs: Seq<ModuleView>) -> nat
    decreases subs,
{
    if subs.len() == 0 {
        0
    } else {
        proof {
            assert(decreases_to!(subs => subs[subs.len() - 1]));
            assert(decreases_to!(subs => subs.subrange(0, subs.len() - 1)));
        }
        nested_count(subs.subrange(0, subs.len() - 1)) + module_count(subs[subs.len() - 1])
    }
}

/// Generating a module gives one file for each module of its tree: first its own
/// `mod.rs` in `dir`, and every file somewhere below `dir`.
pub proof fn lemma_module_files(m: ModuleView, dir: Seq<Seq<char>>, context: Seq<char>)
    ensures
        module_files(m, dir, context).len() == module_count(m),
        module_files(m, dir, context)[0] == (dir, module_text(m, context)),
        forall|i: int|
            0 <= i < module_files(m, dir, context).len() ==> dir.is_prefix_of(
                (#[trigger] module_files(m, dir, context)[i]).0,
            ),
    decreases m,
{
    assert(decreases_to!(m => m.sub_modules));
    lemma_nested_files(m.sub_modules, dir, context);
    let files = module_files(m, dir, context);
    let nested = nested_files(m.sub_modules, dir, context);
    assert(files =~= seq![(dir, module_text(m, context))] + nested);
    assert forall|i: int| 0 <= i < files.len() implies dir.is_prefix_of(
        (#[trigger] files[i]).0,
    ) by {
        if i > 0 {
            assert(files[i] == nested[i - 1]);
        } else {
            assert(dir.subrange(0, dir.len() as int) =~= dir);
        }
    }
}

/// The files generated for nested modules of a module in `dir`: one for each module
/// of their trees, every one below `dir`.
pub proof fn lemma_nested_files(subs: Seq<ModuleView>, dir: Seq<Seq<char>>, context: Seq<char>)
    ensures
        nested_files(subs, dir, context).len() == nested_count(subs),
        forall|i: int|
            0 <= i < nested_files(subs, dir, context).len() ==> dir.is_prefix_of(
                (#[trigger] nested_files(subs, dir, context)[i]).0,
            ),
    decreases subs,
{
    if subs.len() > 0 {
        let last = subs[subs.len() - 1];
        let init = subs.subrange(0, subs.len() - 1);
        assert(decreases_to!(subs => last));
        assert(decreases_to!(subs => init));
        lemma_nested_files(init, dir, context);
        let inner = dir.push(snake_case(last.name));
        lemma_module_files(last, inner, context);
        let a = nested_files(init, dir, context);
        let b = module_files(last, inner, context);
        let files = nested_files(subs, dir, context);
        assert(files =~= a + b);
        assert forall|i: int| 0 <= i < files.len() implies dir.is_prefix_of(
            (#[trigger] files[i]).0,
        ) by {
            if i < a.len() {
                assert(files[i] == a[i]);
            } else {
                assert(files[i] == b[i - a.len()]);
                assert(inner.is_prefix_of(b[i - a.len()].0));
                assert(dir.is_prefix_of(inner));
            }
        }
    }
}

/// A copy of strings.
fn copy_strings(v: &Vec<String>) -> (r: Vec<String>)
    ensures
        texts(r@) == texts(v@),
{
    let mut r: Vec<String> = Vec::new();
    let mut k: usize = 0;
    while k < v.len()
        invariant
            0 <= k <= v@.len(),
            r@.len() == k,
            forall|j: int| 0 <= j < k ==> (#[trigger] r@[j])@ == v@[j]@,
        decreases v@.len() - k,
    {
        r.push(v[k].clone());
        k = k + 1;
    }
    assert(texts(r@) =~= texts(v@));
    r
}

impl Module {
    /// Appends the `pub mod` lines of the nested modules.
    #[verifier::spinoff_prover]
    fn write_sub_modules(&self, out: &mut String)
        ensures
            final(out)@ == old(out)@ + sub_modules_text(self@.sub_modules),
    {
        let ghost m = self@;
        let ghost start = out@;
        let mut k: usize = 0;
        while k < self.sub_modules.len()
            invariant
                0 <= k <= self.sub_modules@.len(),
                m == self@,
                out@ == start + sub_modules_text(m.sub_modules.subrange(0, k as int)),
            decreases self.sub_modules@.len() - k,
        {
            let ghost done = m.sub_modules.subrange(0, k as int);
            assert(m.sub_modules.subrange(0, k + 1).drop_last() =~= done);
            let mut line = "pub mod ".to_owned();
            let name = self.sub_modules[k].snake_name();
            line.append(name.as_str());
            line.append(";\n");
            write_line(out, line.as_str(), 0);
            assert(start + sub_modules_text(done) + indented(line@, 0) =~= start + (sub_modules_text(done)
                + indented(line@, 0)));
            k = k + 1;
        }
        assert(m.sub_modules.subrange(0, k as int) =~= m.sub_modules);
    }

    /// Appends the type aliases.
    #[verifier::spinoff_prover]
    fn write_typedefs(&self, out: &mut String)
        ensures
            final(out)@ == old(out)@ + typedefs_text(self@.typedefs),
    {
        let ghost items = named_types_view(self.typedefs@);
        assert(items == self@.typedefs);
        let ghost start = out@;
        let mut k: usize = 0;
        while k < self.typedefs.len()
            invariant
                0 <= k <= self.typedefs@.len(),
                items == named_types_view(self.typedefs@),
                out@ == start + typedefs_text(items.subrange(0, k as int)),
            decreases self.typedefs@.len() - k,
        {
            let ghost done = items.subrange(0, k as int);
            assert(items.subrange(0, k + 1).drop_last() =~= done);
            let mut line = "type ".to_owned();
            line.append(self.typedefs[k].0.as_str());
            line.append(" = ");
            let rust = self.typedefs[k].1.rust_type();
            line.append(rust.as_str());
            line.append(";\n");
            write_line(out, line.as_str(), 0);
            assert(start + typedefs_text(done) + indented(line@, 0) =~= start + (typedefs_text(done)
                + indented(line@, 0)));
            k = k + 1;
        }
        assert(items.subrange(0, k as int) =~= items);
    }

    /// Appends the sources of the enumerations.
    #[verifier::spinoff_prover]
    fn write_enums(&self, out: &mut String)
        ensures
            final(out)@ == old(out)@ + enums_text(self@.enumerations),
    {
        let ghost items = self.enumerations@.map_values(|e: Enum| e@);
        assert(items == self@.enumerations);
        let ghost start = out@;
        let mut k: usize = 0;
        while k < self.enumerations.len()
            invariant
                0 <= k <= self.enumerations@.len(),
                items == self.enumerations@.map_values(|e: Enum| e@),
                out@ == start + enums_text(items.subrange(0, k as int)),
            decreases self.enumerations@.len() - k,
        {
            let ghost done = items.subrange(0, k as int);
            assert(items.subrange(0, k + 1).drop_last() =~= done);
            let text = self.enumerations[k].generate();
            out.append(text.as_str());
            proof {
                lemma_append_assoc(start, enums_text(done), text@);
            }
            k = k + 1;
        }
        assert(items.subrange(0, k as int) =~= items);
    }

    /// Appends the sources of the structures.
    #[verifier::spinoff_prover]
    fn write_structs(&self, out: &mut String)
        ensures
            final(out)@ == old(out)@ + structs_text(self@.structs),
    {
        let ghost items = self.structs@.map_values(|s: Struct| s@);
        assert(items == self@.structs);
        let ghost start = out@;
        let mut k: usize = 0;
        while k < self.structs.len()
            invariant
                0 <= k <= self.structs@.len(),
                items == self.structs@.map_values(|s: Struct| s@),
                out@ == start + structs_text(items.subrange(0, k as int)),
            decreases self.structs@.len() - k,
        {
            let ghost done = items.subrange(0, k as int);
            assert(items.subrange(0, k + 1).drop_last() =~= done);
            let text = self.structs[k].write();
            out.append(text.as_str());
            proof {
                lemma_append_assoc(start, structs_text(done), text@);
            }
            k = k + 1;
        }
        assert(items.subrange(0, k as int) =~= items);
    }

    /// Appends the sources of the exceptions.
    #[verifier::spinoff_prover]
    fn write_exceptions(&self, out: &mut String)
        ensures
            final(out)@ == old(out)@ + exceptions_text(self@.exceptions),
    {
        let ghost items = self.exceptions@.map_values(|e: Exception| e@);
        assert(items == self@.exceptions);
        let ghost start = out@;
        let mut k: usize = 0;
        while k < self.exceptions.len()
            invariant
                0 <= k <= self.exceptions@.len(),
                items == self.exceptions@.map_values(|e: Exception| e@),
                out@ == start + exceptions_text(items.subrange(0, k as int)),
            decreases self.exceptions@.len() - k,
        {
            let ghost done = items.subrange(0, k as int);
            assert(items.subrange(0, k + 1).drop_last() =~= done);
            let text = self.exceptions[k].generate();
            out.append(text.as_str());
            proof {
                lemma_append_assoc(start, exceptions_text(done), text@);
            }
            k = k + 1;
        }
        assert(items.subrange(0, k as int) =~= items);
    }

    /// Appends the sources of the interfaces.
    #[verifier::spinoff_prover]
    fn write_interfaces(&self, out: &mut String, context: &str)
        ensures
            final(out)@ == old(out)@ + interfaces_text(self@.interfaces, self@.full_name, context@),
    {
        let ghost items = self.interfaces@.map_values(|i: Interface| i@);
        let ghost path = self.full_name@;
        assert(items == self@.interfaces);
        assert(path == self@.full_name);
        let ghost start = out@;
        let mut k: usize = 0;
        while k < self.interfaces.len()
            invariant
                0 <= k <= self.interfaces@.len(),
                items == self.interfaces@.map_values(|i: Interface| i@),
                path == self.full_name@,
                out@ == start + interfaces_text(items.subrange(0, k as int), path, context@),
            decreases self.interfaces@.len() - k,
        {
            let ghost done = items.subrange(0, k as int);
            assert(items.subrange(0, k + 1).drop_last() =~= done);
            let text = self.interfaces[k].generate(self.full_name.as_str(), context);
            out.append(text.as_str());
            proof {
                lemma_append_assoc(start, interfaces_text(done, path, context@), text@);
            }
            k = k + 1;
        }
        assert(items.subrange(0, k as int) =~= items);
    }

    /// The `mod.rs` generated for this module.
    #[verifier::spinoff_prover]
    fn source_text(&self, context: &str) -> (text: String)
        ensures
            text@ == module_text(self@, context@),
    {
        let enums = self.enumerations.len() > 0;
        let structs = self.structs.len() > 0;
        let interfaces = self.interfaces.len() > 0;
        let mut out = String::new();
        write_line(&mut out, "// This file has been generated.\n\n", 0);
        assert(Seq::<char>::empty() + indented("// This file has been generated.\n\n"@, 0)
            =~= indented("// This file has been generated.\n\n"@, 0));
        write_line_if(&mut out, enums, "use ice_rs::encoding::IceSize;\n", 0);
        write_line_if(
            &mut out,
            enums || structs,
            "use ice_rs::encoding::{\n   ToBytes, FromBytes\n};\n",
            0,
        );
        write_line_if(&mut out, enums || structs || interfaces, "use ice_rs::errors::*;\n", 0);
        write_line_if(&mut out, interfaces, "use ice_rs::iceobject::IceObject;\n", 0);
        write_line_if(
            &mut out,
            interfaces,
            "use ice_rs::protocol::{Encapsulation, ReplyData};\n",
            0,
        );
        write_line_if(&mut out, interfaces, "use ice_rs::proxy::Proxy;\n", 0);
        write_line_if(&mut out, enums, "use num_enum::TryFromPrimitive;\n", 0);
        let dict = self.has_dict();
        write_line_if(&mut out, dict, "use std::collections::HashMap;\n", 0);
        write_line_if(&mut out, enums, "use std::convert::TryFrom;\n", 0);

        self.write_sub_modules(&mut out);
        write_line(&mut out, "\n", 0);
        self.write_typedefs(&mut out);
        write_line(&mut out, "\n", 0);
        self.write_enums(&mut out);
        write_line(&mut out, "\n", 0);
        self.write_structs(&mut out);
        self.write_exceptions(&mut out);
        write_line(&mut out, "\n", 0);
        self.write_interfaces(&mut out, context);
        out
    }

    /// Appends the files generated for this module, placed in `dir`, to `files`.
    #[verifier::spinoff_prover]
    fn collect_files(
        &self,
        dir: &mut Vec<String>,
        context: &str,
        files: &mut Vec<GeneratedFile>,
    )
        ensures
            final(dir)@ == old(dir)@,
            files_view(final(files)@) == files_view(old(files)@) + module_files(
                self@,
                texts(old(dir)@),
                context@,
            ),
        decreases self,
    {
        let ghost start = files_view(files@);
        let ghost m = self@;
        let content = self.source_text(context);
        let here = copy_strings(dir);
        files.push(GeneratedFile { dir: here, content: content });
        assert(files_view(files@) =~= start + seq![(texts(dir@), module_text(m, context@))]);
        let ghost p = files_view(files@);
        let mut k: usize = 0;
        while k < self.sub_modules.len()
            invariant
                0 <= k <= self.sub_modules@.len(),
                m == self@,
                dir@ == old(dir)@,
                files_view(files@) == p + nested_files(
                    m.sub_modules.subrange(0, k as int),
                    texts(dir@),
                    context@,
                ),
            decreases self.sub_modules@.len() - k,
        {
            let ghost done = m.sub_modules.subrange(0, k as int);
            let ghost before = files_view(files@);
            assert(m.sub_modules.subrange(0, k + 1).subrange(0, k as int) =~= done);
            let sub = &self.sub_modules[k];
            assert(m.sub_modules[k as int] == sub@);
            let name = sub.snake_name();
            let ghost outer = dir@;
            dir.push(name);
            assert(texts(dir@) =~= texts(outer).push(snake_case(sub@.name)));
            proof {
                Module::lemma_sub_module_decreases(*self, k as int);
            }
            sub.collect_files(dir, context, files);
            let _ = dir.pop();
            assert(dir@ =~= outer);
            assert(p + nested_files(done, texts(dir@), context@) + module_files(
                sub@,
                texts(dir@).push(snake_case(sub@.name)),
                context@,
            ) =~= p + (nested_files(done, texts(dir@), context@) + module_files(
                sub@,
                texts(dir@).push(snake_case(sub@.name)),
                context@,
            )));
            k = k + 1;
        }
        assert(m.sub_modules.subrange(0, k as int) =~= m.sub_modules);
        assert(files_view(files@) =~= start + module_files(m, texts(dir@), context@));
    }

    /// The files generated for this module, served under the name `context`: its
    /// `mod.rs` at the destination, and the files of each nested module, in a
    /// directory of its own named by its snake_case name.
    pub fn generate(&self, context: &str) -> (files: Vec<GeneratedFile>)
        ensures
            files_view(files@) == module_files(self@, Seq::empty(), context@),
    {
        let mut files: Vec<GeneratedFile> = Vec::new();
        let mut dir: Vec<String> = Vec::new();
        assert(texts(dir@) =~= Seq::<Seq<char>>::empty());
        assert(files_view(files@) =~= Seq::empty());
        self.collect_files(&mut dir, context, &mut files);
        assert(Seq::empty() + module_files(self@, Seq::empty(), context@) =~= module_files(
            self@,
            Seq::empty(),
            context@,
        ));
        files
    }
}

/// The nested modules are listed in the order they are declared: the text for `a + b` is the text for `a` followed by the text for `b`.
pub proof fn lemma_sub_modules_text_in_order(a: Seq<ModuleView>, b: Seq<ModuleView>)
    ensures
        sub_modules_text(a + b) == sub_modules_text(a) + sub_modules_text(b),
    decreases b.len(),
{
    if b.len() == 0 {
        assert(a + b =~= a);
        assert(sub_modules_text(a) + Seq::<char>::empty() =~= sub_modules_text(a));
    } else {
        lemma_sub_modules_text_in_order(a, b.drop_last());
        assert((a + b).drop_last() =~= a + b.drop_last());
        assert((a + b).last() == b.last());
        assert(sub_modules_text(a + b) =~= sub_modules_text(a) + sub_modules_text(b));
    }
}

/// The type aliases are generated in the order they are declared: the text for `a + b` is the text for `a` followed by the text for `b`.
pub proof fn lemma_typedefs_text_in_order(a: Seq<(Seq<char>, IceTypeView)>, b: Seq<(Seq<char>, IceTypeView)>)
    ensures
        typedefs_text(a + b) == typedefs_text(a) + typedefs_text(b),
    decreases b.len(),
{
    if b.len() == 0 {
        assert(a + b =~= a);
        assert(typedefs_text(a) + Seq::<char>::empty() =~= typedefs_text(a));
    } else {
        lemma_typedefs_text_in_order(a, b.drop_last());
        assert((a + b).drop_last() =~= a + b.drop_last());
        assert((a + b).last() == b.last());
        assert(typedefs_text(a + b) =~= typedefs_text(a) + typedefs_text(b));
    }
}

/// The enumerations are generated in the order they are declared: the text for `a + b` is the text for `a` followed by the text for `b`.
pub proof fn lemma_enums_text_in_order(a: Seq<EnumView>, b: Seq<EnumView>)
    ensures
        enums_text(a + b) == enums_text(a) + enums_text(b),
    decreases b.len(),
{
    if b.len() == 0 {
        assert(a + b =~= a);
        assert(enums_text(a) + Seq::<char>::empty() =~= enums_text(a));
    } else {
        let init = b.drop_last();
        lemma_enums_text_in_order(a, init);
        assert((a + b).drop_last() =~= a + init);
        assert((a + b).last() == b.last());
        assert(enums_text(a + b) == enums_text(a + init) + enum_text(b.last()));
        lemma_append_assoc(enums_text(a), enums_text(init), enum_text(b.last()));
    }
}

/// The structures are generated in the order they are declared: the text for `a + b` is the text for `a` followed by the text for `b`.
pub proof fn lemma_structs_text_in_order(a: Seq<StructView>, b: Seq<StructView>)
    ensures
        structs_text(a + b) == structs_text(a) + structs_text(b),
    decreases b.len(),
{
    if b.len() == 0 {
        assert(a + b =~= a);
        assert(structs_text(a) + Seq::<char>::empty() =~= structs_text(a));
    } else {
        let init = b.drop_last();
        lemma_structs_text_in_order(a, init);
        assert((a + b).drop_last() =~= a + init);
        assert((a + b).last() == b.last());
        assert(structs_text(a + b) == structs_text(a + init) + struct_text(b.last()));
        lemma_append_assoc(structs_text(a), structs_text(init), struct_text(b.last()));
    }
}

/// The exceptions are generated in the order they are declared: the text for `a + b` is the text for `a` followed by the text for `b`.
pub proof fn lemma_exceptions_text_in_order(a: Seq<ExceptionView>, b: Seq<ExceptionView>)
    ensures
        exceptions_text(a + b) == exceptions_text(a) + exceptions_text(b),
    decreases b.len(),
{
    if b.len() == 0 {
        assert(a + b =~= a);
        assert(exceptions_text(a) + Seq::<char>::empty() =~= exceptions_text(a));
    } else {
        let init = b.drop_last();
        lemma_exceptions_text_in_order(a, init);
        assert((a + b).drop_last() =~= a + init);
        assert((a + b).last() == b.last());
        assert(exceptions_text(a + b) == exceptions_text(a + init) + exception_text(b.last()));
        lemma_append_assoc(exceptions_text(a), exceptions_text(init), exception_text(b.last()));
    }
}

/// The interfaces are generated in the order they are declared: the text for `a + b` is the text for `a` followed by the text for `b`.
pub proof fn lemma_interfaces_text_in_order(a: Seq<InterfaceView>, b: Seq<InterfaceView>, path: Seq<char>, context: Seq<char>)
    ensures
        interfaces_text(a + b, path, context) == interfaces_text(a, path, context) + interfaces_text(b, path, context),
    decreases b.len(),
{
    if b.len() == 0 {
        assert(a + b =~= a);
        assert(interfaces_text(a, path, context) + Seq::<char>::empty() =~= interfaces_text(a, path, context));
    } else {
        let init = b.drop_last();
        lemma_interfaces_text_in_order(a, init, path, context);
        assert((a + b).drop_last() =~= a + init);
        assert((a + b).last() == b.last());
        assert(interfaces_text(a + b, path, context) == interfaces_text(a + init, path, context) + interface_text(b.last(), path, context));
        lemma_append_assoc(interfaces_text(a, path, context), interfaces_text(init, path, context), interface_text(b.last(), path, context));
    }
}

} // verus!
