//! Symbols as the tools report them.

use vstd::prelude::*;

verus! {

/// A symbol name, with the language it comes from and whether it is mangled,
/// where known.
#[derive(Debug, Clone, Default)]
pub struct SymbolInfo {
    pub symbol: String,
    pub language: Option<String>,
    pub mangled: Option<bool>,
}

/// What demangling keeps: the return type, the parameters.
#[derive(Debug, Clone, Copy, PartialEq, Eq, Structural)]
pub struct DemangleOpts {
    pub return_type: bool,
    pub parameters: bool,
}

impl Default for DemangleOpts {
    /// Keep both.
    fn default() -> (r: Self)
        ensures
            r.return_type && r.parameters,
    {
        DemangleOpts { return_type: true, parameters: true }
    }
}

impl SymbolInfo {
    /// A symbol from its name, language and mangling, in this order.
    pub fn new_js0(symbol: String, language: Option<String>, mangled: Option<bool>) -> (r: Self)
        ensures
            r.symbol == symbol,
            r.language == language,
            r.mangled == mangled,
    {
        SymbolInfo { symbol, language, mangled }
    }

    /// A symbol from its name, mangling and language, in this order.
    pub fn new_js1(symbol: String, mangled: Option<bool>, language: Option<String>) -> (r: Self)
        ensures
            r.symbol == symbol,
            r.language == language,
            r.mangled == mangled,
    {
        SymbolInfo { symbol, language, mangled }
    }

    pub fn symbol(&self) -> (r: &String)
        ensures
            *r == self.symbol,
    {
        &self.symbol
    }

    pub fn set_symbol(&mut self, symbol: String)
        ensures
            final(self).symbol == symbol,
            final(self).language == old(self).language,
            final(self).mangled == old(self).mangled,
    {
        self.symbol = symbol;
    }

    pub fn language(&self) -> (r: &Option<String>)
        ensures
            *r == self.language,
    {
        &self.language
    }

    pub fn set_language(&mut self, language: Option<String>)
        ensures
            final(self).language == language,
            final(self).symbol == old(self).symbol,
            final(self).mangled == old(self).mangled,
    {
        self.language = language;
    }

    pub fn mangled(&self) -> (r: &Option<bool>)
        ensures
            *r == self.mangled,
    {
        &self.mangled
    }

    pub fn set_mangled(&mut self, mangled: Option<bool>)
        ensures
            final(self).mangled == mangled,
            final(self).symbol == old(self).symbol,
            final(self).language == old(self).language,
    {
        self.mangled = mangled;
    }
}

} // verus!
