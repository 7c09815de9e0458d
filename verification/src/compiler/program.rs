//! Whole units: from statements to a listing.

use vstd::prelude::*;

use crate::ast::statement::{compile_statements, Statement};
use crate::compiler::Compiler;
use crate::compiler::code_block::listing;
use crate::compiler::error::{fault_of, CompilerResult};
use crate::compiler::laws::names::{lemma_statements_tidy, references_resolve};
use crate::compiler::lowering::{all_lowerable, lower_statements};
use crate::compiler::model::{CompilerView, SymbolView};
use crate::compiler::symbol_table::names_view;

verus! {

/// The names of the symbols, in slot order.
pub open spec fn names_of(symbols: Seq<SymbolView>) -> Seq<Seq<char>> {
    Seq::new(symbols.len(), |slot: int| symbols[slot].name)
}

/// The listing of the code that a state holds.
pub open spec fn listing_of(c: CompilerView) -> Seq<char> {
    listing(c.instructions, names_of(c.symbols), c.values, c.instructions.len() as int)
}

/// Compiles the statements in order and hands out the listing of the
/// code, leaving the compiler as new.
///
/// The first statement that fails ends the work: its failure is
/// returned, and the compiler keeps what was emitted until then.
pub fn compile(compiler: &mut Compiler, statements: &Vec<Statement>) -> (r: CompilerResult<String>)
    requires
        old(compiler).wf(),
        references_resolve(old(compiler)@),
        all_lowerable(statements@, 0),
    ensures
        final(compiler).wf(),
        references_resolve(final(compiler)@),
        fault_of(r) == lower_statements(old(compiler)@, statements@, 0).fault,
        match r {
            Ok(text) => text@ == listing_of(lower_statements(old(compiler)@, statements@, 0).state)
                && final(compiler)@ == CompilerView::empty(),
            Err(_) => final(compiler)@ == lower_statements(old(compiler)@, statements@, 0).state,
        },
{
    proof {
        old(compiler).lemma_wf();
        lemma_statements_tidy(old(compiler)@, statements@, 0);
    }
    match compile_statements(statements, compiler) {
        Ok(_) => {},
        Err(error) => {
            return Err(error);
        },
    }
    let ghost done = compiler@;
    let (code_block, debug_symbols) = compiler.finish();
    proof {
        assert(names_view(debug_symbols@) =~= names_of(done.symbols));
    }
    Ok(code_block.disassemble(&debug_symbols))
}

} // verus!
