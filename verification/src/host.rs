//! The statements before the chain of a `#[parallel]` function, which run on the host.
use vstd::prelude::*;

use crate::diagnostic::{Diagnostic, Problem};
use crate::source::{
    PatternKind, SourceBlock, SourceExpr, SourcePattern, SourceStatement, Span,
};
use crate::syntax::{problem_at, report};
use crate::text::same_text;

verus! {

/// The chain of a function's body: the last statement, which has no semicolon.
pub open spec fn chain_expression<'a>(block: &'a SourceBlock) -> Result<
    &'a SourceExpr,
    Diagnostic,
> {
    if block.statements@.len() == 0 {
        problem_at(block.span, Problem::NotOneChain)
    } else {
        match &block.statements@[block.statements@.len() - 1] {
            SourceStatement::Expr { expression, semicolon: false } => Ok(expression),
            _ => problem_at(block.span, Problem::NotOneChain),
        }
    }
}

/// The chain of a function's body: the last statement, which has no semicolon.
pub fn parse_chain_expression<'a>(block: &'a SourceBlock) -> (chain: Result<
    &'a SourceExpr,
    Diagnostic,
>)
    ensures
        chain == chain_expression(block),
{
    if block.statements.len() == 0 {
        return report(block.span, Problem::NotOneChain);
    }
    match &block.statements[block.statements.len() - 1] {
        SourceStatement::Expr { expression, semicolon: false } => Ok(expression),
        _ => report(block.span, Problem::NotOneChain),
    }
}

/// A statement that the generated function repeats before it runs the kernel.
#[derive(Debug, Clone, Copy, PartialEq, Eq, Structural)]
pub struct HostStatement {
    /// The tokens of the statement.
    pub span: Span,
    /// Whether a semicolon follows the tokens.
    pub semicolon: bool,
}

/// The host statement that a statement is. A `let`, an item and a macro hold their own semicolon.
pub open spec fn host_statement(statement: SourceStatement) -> HostStatement {
    match statement {
        SourceStatement::Local(local) => HostStatement { span: local.span, semicolon: false },
        SourceStatement::Expr { expression, semicolon } => HostStatement {
            span: expression.span,
            semicolon,
        },
        SourceStatement::Item(span) => HostStatement { span, semicolon: false },
        SourceStatement::Macro(span) => HostStatement { span, semicolon: false },
    }
}

/// The statements of a body that stand before its chain.
pub open spec fn host_part(block: SourceBlock) -> Seq<SourceStatement> {
    if block.statements@.len() == 0 {
        Seq::empty()
    } else {
        block.statements@.drop_last()
    }
}

/// The host statements of a body, in their order.
pub open spec fn host_statements(block: SourceBlock) -> Seq<HostStatement> {
    host_part(block).map_values(|statement: SourceStatement| host_statement(statement))
}

/// The host statements of a body, in their order.
pub fn collect_host_statements(block: &SourceBlock) -> (statements: Vec<HostStatement>)
    ensures
        statements@ == host_statements(*block),
{
    let mut statements: Vec<HostStatement> = Vec::new();
    if block.statements.len() > 0 {
        let count: usize = block.statements.len() - 1;
        let mut index: usize = 0;
        while index < count
            invariant
                index <= count,
                count + 1 == block.statements@.len(),
                statements@ =~= host_statements(*block).take(index as int),
            decreases count - index,
        {
            let statement = match &block.statements[index] {
                SourceStatement::Local(local) => HostStatement {
                    span: local.span,
                    semicolon: false,
                },
                SourceStatement::Expr { expression, semicolon } => HostStatement {
                    span: expression.span,
                    semicolon: *semicolon,
                },
                SourceStatement::Item(span) => HostStatement { span: *span, semicolon: false },
                SourceStatement::Macro(span) => HostStatement { span: *span, semicolon: false },
            };
            assert(statement == host_statements(*block)[index as int]);
            statements.push(statement);
            index += 1;
        }
    }
    statements
}

/// Whether a pattern binds a name.
pub open spec fn binds(pattern: SourcePattern, name: Seq<char>) -> bool
    decreases pattern,
{
    match pattern.kind {
        PatternKind::Ident { ident, subpattern, .. } => ident.name@ == name || match subpattern {
            Some(subpattern) => binds(*subpattern, name),
            None => false,
        },
        PatternKind::Reference(pattern) => binds(*pattern, name),
        PatternKind::Paren(pattern) => binds(*pattern, name),
        PatternKind::Typed { pattern, .. } => binds(*pattern, name),
        PatternKind::Tuple(patterns) => any_binds(patterns@, name),
        PatternKind::Wild => false,
        PatternKind::Other(patterns) => any_binds(patterns@, name),
    }
}

/// Whether one of a sequence of patterns binds a name.
pub open spec fn any_binds(patterns: Seq<SourcePattern>, name: Seq<char>) -> bool
    decreases patterns,
{
    if patterns.len() == 0 {
        false
    } else {
        any_binds(patterns.drop_last(), name) || binds(patterns.last(), name)
    }
}

fn any_pattern_binds(patterns: &Vec<SourcePattern>, name: &str) -> (bound: bool)
    ensures
        bound == any_binds(patterns@, name@),
    decreases patterns,
{
    let mut bound: bool = false;
    let mut index: usize = 0;
    while index < patterns.len()
        invariant
            index <= patterns@.len(),
            bound == any_binds(patterns@.take(index as int), name@),
        decreases patterns@.len() - index,
    {
        assert(patterns@.take(index + 1).drop_last() =~= patterns@.take(index as int));
        if pattern_binds(&patterns[index], name) {
            bound = true;
        }
        index += 1;
    }
    assert(patterns@.take(patterns@.len() as int) =~= patterns@);
    bound
}

/// Whether a pattern binds a name.
pub fn pattern_binds(pattern: &SourcePattern, name: &str) -> (bound: bool)
    ensures
        bound == binds(*pattern, name@),
    decreases pattern,
{
    match &pattern.kind {
        PatternKind::Ident { ident, subpattern, .. } => {
            same_text(ident.name.as_str(), name) || match subpattern {
                Some(subpattern) => pattern_binds(subpattern, name),
                None => false,
            }
        },
        PatternKind::Reference(pattern) => pattern_binds(pattern, name),
        PatternKind::Paren(pattern) => pattern_binds(pattern, name),
        PatternKind::Typed { pattern, .. } => pattern_binds(pattern, name),
        PatternKind::Tuple(patterns) => any_pattern_binds(patterns, name),
        PatternKind::Wild => false,
        PatternKind::Other(patterns) => any_pattern_binds(patterns, name),
    }
}

/// Whether a statement declares a local of a name.
pub open spec fn declares(statement: SourceStatement, name: Seq<char>) -> bool {
    match statement {
        SourceStatement::Local(local) => binds(local.pattern, name),
        _ => false,
    }
}

/// Whether a name is a local of the host statements of a body.
pub open spec fn is_host_local(block: SourceBlock, name: Seq<char>) -> bool {
    exists|i: int|
        0 <= i < host_part(block).len() && declares(#[trigger] host_part(block)[i], name)
}

/// Whether a name is a local of the host statements of a body.
pub fn host_declares(block: &SourceBlock, name: &str) -> (declared: bool)
    ensures
        declared == is_host_local(*block, name@),
{
    if block.statements.len() == 0 {
        return false;
    }
    let count: usize = block.statements.len() - 1;
    let mut index: usize = 0;
    while index < count
        invariant
            index <= count,
            count + 1 == block.statements@.len(),
            forall|i: int| 0 <= i < index ==> !declares(#[trigger] host_part(*block)[i], name@),
        decreases count - index,
    {
        assert(host_part(*block)[index as int] == block.statements@[index as int]);
        if let SourceStatement::Local(local) = &block.statements[index] {
            if pattern_binds(&local.pattern, name) {
                assert(declares(host_part(*block)[index as int], name@));
                return true;
            }
        }
        index += 1;
    }
    false
}

} // verus!
