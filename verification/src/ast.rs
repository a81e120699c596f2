//! The items that the maker produces, and the table of symbols that holds
//! them.

use vstd::prelude::*;

verus! {

/// Identifier of a generic placeholder, a parameter or a local.
#[derive(Debug, Clone, Copy, PartialEq, Eq, Structural)]
pub struct AstId {
    pub id: usize,
}

/// Handle of a symbol: a cell that is allocated when a declaration is seen
/// and assigned its definition once, later. Every reference to an item goes
/// through its handle, so items may refer to themselves and to items that
/// are declared after them.
#[derive(Debug, Clone, Copy, PartialEq, Eq, Structural)]
pub struct ItemP {
    pub index: usize,
}

/// A type term: the unit type, or a term that the type resolver built and
/// knows by this number.
#[derive(Debug, Clone, Copy, PartialEq, Eq, Structural)]
pub enum Ty {
    Void,
    Term(usize),
}

/// An expression that the expression resolver built and knows by this
/// number.
#[derive(Debug, Clone, Copy, PartialEq, Eq, Structural)]
pub struct Expr {
    pub id: usize,
}

/// A field of a struct: the name it was registered under and its type.
#[derive(Debug, Clone)]
pub struct Field {
    pub name: Option<String>,
    pub ty: Ty,
}

/// A parameter of a function.
#[derive(Debug, Clone, Copy, PartialEq, Eq, Structural)]
pub struct Parameter {
    pub id: AstId,
    pub ty: Ty,
}

/// A struct: generic placeholders and fields in declaration order, and the
/// functions of the implementation that was paired with it.
#[derive(Debug, Clone)]
pub struct Struct {
    pub placeholders: Vec<AstId>,
    pub fields: Vec<Field>,
    pub associated_fns: Vec<ItemP>,
}

/// A function: generic placeholders and parameters in declaration order,
/// the return type, and the body unless it is declared only.
#[derive(Debug, Clone)]
pub struct Function {
    pub placeholders: Vec<AstId>,
    pub parameters: Vec<Parameter>,
    pub return_type: Ty,
    pub body: Option<Expr>,
}

/// The definition of a symbol.
#[derive(Debug, Clone)]
pub enum Item {
    Struct(Struct),
    Function(Function),
}

/// The symbols of one compilation. A symbol is unassigned from its
/// allocation until its one assignment.
#[derive(Debug)]
pub struct AstCtx {
    symbols: Vec<Option<Item>>,
}

impl View for AstCtx {
    type V = Seq<Option<Item>>;

    closed spec fn view(&self) -> Seq<Option<Item>> {
        self.symbols@
    }
}

impl AstCtx {
    /// Whether the handle denotes a symbol of this table that has no
    /// definition yet.
    pub open spec fn unassigned(&self, symbol: ItemP) -> bool {
        symbol.index < self@.len() && self@[symbol.index as int] is None
    }

    /// A table without symbols.
    pub fn new() -> (ast: AstCtx)
        ensures
            ast@ == Seq::<Option<Item>>::empty(),
    {
        AstCtx { symbols: Vec::new() }
    }

    /// The number of symbols allocated so far.
    pub fn len(&self) -> (n: usize)
        ensures
            n == self@.len(),
    {
        self.symbols.len()
    }

    /// Allocates a symbol. It has no definition yet.
    pub fn make_symbol(&mut self) -> (symbol: ItemP)
        ensures
            symbol.index == old(self)@.len(),
            final(self)@ == old(self)@.push(None),
    {
        let symbol = ItemP { index: self.symbols.len() };
        self.symbols.push(None);
        symbol
    }

    /// Whether the symbol has its definition.
    pub fn is_assigned(&self, symbol: ItemP) -> (assigned: bool)
        ensures
            assigned == (symbol.index < self@.len() && self@[symbol.index as int] is Some),
    {
        symbol.index < self.symbols.len() && self.symbols[symbol.index].is_some()
    }

    /// Gives the symbol its definition. This is done once: the symbol must
    /// not have one yet.
    pub fn assign(&mut self, symbol: ItemP, item: Item)
        requires
            old(self).unassigned(symbol),
        ensures
            final(self)@ == old(self)@.update(symbol.index as int, Some(item)),
    {
        self.symbols.set(symbol.index, Some(item));
    }

    /// The definition of the symbol; none while it is unassigned, and none
    /// for a handle that is not of this table.
    pub fn get(&self, symbol: ItemP) -> (item: Option<&Item>)
        ensures
            match item {
                Some(found) => symbol.index < self@.len() && self@[symbol.index as int] == Some(
                    *found,
                ),
                None => symbol.index >= self@.len() || self@[symbol.index as int] is None,
            },
    {
        if symbol.index < self.symbols.len() {
            self.symbols[symbol.index].as_ref()
        } else {
            None
        }
    }
}

} // verus!
