//! Per-variant node discriminants and fixed-size sets of them, used by the
//! linter's bucketed dispatch to declare which node types a rule visits.

use vstd::prelude::*;
use crate::ast::{Expression, LastStatement, Statement};

verus! {

/// One variant per `Statement`, `LastStatement`, and `Expression` variant,
/// in discriminant order.
#[derive(Debug, Clone, Copy, PartialEq, Eq, Hash, Structural)]
pub enum NodeType {
    Assignment,
    FunctionCallStmt,
    DoBlock,
    WhileLoop,
    RepeatLoop,
    IfStatement,
    NumericFor,
    GenericFor,
    FunctionDecl,
    LocalFunction,
    LocalAssignment,
    EmptyStatement,
    Goto,
    Label,
    GlobalDeclaration,
    GlobalFunction,
    GlobalStar,
    Break,
    CompoundAssignment,
    TypeDeclaration,
    ErrorStmt,
    Nil,
    False,
    True,
    Number,
    Integer,
    StringLiteral,
    VarArg,
    FunctionDef,
    Var,
    FunctionCallExpr,
    Parenthesized,
    TableConstructor,
    BinaryOp,
    UnaryOp,
    IfExpression,
    InterpolatedString,
    TypeCast,
    TypeInstantiation,
    ErrorExpr,
    Return,
    LastBreak,
    LastContinue,
    ErrorLastStmt,
}

/// Number of node types; every discriminant is below it.
pub const NODE_TYPE_COUNT: usize = 44;

/// Number of 64-bit words an [`AstTypesBitset`] holds.
pub const WORD_COUNT: usize = 1;

impl NodeType {
    pub const COUNT: usize = 44;

    /// The discriminant of `self` (its position in declaration order).
    pub open spec fn spec_index(self) -> nat {
        match self {
            NodeType::Assignment => 0,
            NodeType::FunctionCallStmt => 1,
            NodeType::DoBlock => 2,
            NodeType::WhileLoop => 3,
            NodeType::RepeatLoop => 4,
            NodeType::IfStatement => 5,
            NodeType::NumericFor => 6,
            NodeType::GenericFor => 7,
            NodeType::FunctionDecl => 8,
            NodeType::LocalFunction => 9,
            NodeType::LocalAssignment => 10,
            NodeType::EmptyStatement => 11,
            NodeType::Goto => 12,
            NodeType::Label => 13,
            NodeType::GlobalDeclaration => 14,
            NodeType::GlobalFunction => 15,
            NodeType::GlobalStar => 16,
            NodeType::Break => 17,
            NodeType::CompoundAssignment => 18,
            NodeType::TypeDeclaration => 19,
            NodeType::ErrorStmt => 20,
            NodeType::Nil => 21,
            NodeType::False => 22,
            NodeType::True => 23,
            NodeType::Number => 24,
            NodeType::Integer => 25,
            NodeType::StringLiteral => 26,
            NodeType::VarArg => 27,
            NodeType::FunctionDef => 28,
            NodeType::Var => 29,
            NodeType::FunctionCallExpr => 30,
            NodeType::Parenthesized => 31,
            NodeType::TableConstructor => 32,
            NodeType::BinaryOp => 33,
            NodeType::UnaryOp => 34,
            NodeType::IfExpression => 35,
            NodeType::InterpolatedString => 36,
            NodeType::TypeCast => 37,
            NodeType::TypeInstantiation => 38,
            NodeType::ErrorExpr => 39,
            NodeType::Return => 40,
            NodeType::LastBreak => 41,
            NodeType::LastContinue => 42,
            NodeType::ErrorLastStmt => 43,
        }
    }

    /// The discriminant of `self`, for indexing bucket arrays.
    pub fn index(self) -> (i: usize)
        ensures
            i == self.spec_index(),
            i < NODE_TYPE_COUNT,
    {
        match self {
            NodeType::Assignment => 0,
            NodeType::FunctionCallStmt => 1,
            NodeType::DoBlock => 2,
            NodeType::WhileLoop => 3,
            NodeType::RepeatLoop => 4,
            NodeType::IfStatement => 5,
            NodeType::NumericFor => 6,
            NodeType::GenericFor => 7,
            NodeType::FunctionDecl => 8,
            NodeType::LocalFunction => 9,
            NodeType::LocalAssignment => 10,
            NodeType::EmptyStatement => 11,
            NodeType::Goto => 12,
            NodeType::Label => 13,
            NodeType::GlobalDeclaration => 14,
            NodeType::GlobalFunction => 15,
            NodeType::GlobalStar => 16,
            NodeType::Break => 17,
            NodeType::CompoundAssignment => 18,
            NodeType::TypeDeclaration => 19,
            NodeType::ErrorStmt => 20,
            NodeType::Nil => 21,
            NodeType::False => 22,
            NodeType::True => 23,
            NodeType::Number => 24,
            NodeType::Integer => 25,
            NodeType::StringLiteral => 26,
            NodeType::VarArg => 27,
            NodeType::FunctionDef => 28,
            NodeType::Var => 29,
            NodeType::FunctionCallExpr => 30,
            NodeType::Parenthesized => 31,
            NodeType::TableConstructor => 32,
            NodeType::BinaryOp => 33,
            NodeType::UnaryOp => 34,
            NodeType::IfExpression => 35,
            NodeType::InterpolatedString => 36,
            NodeType::TypeCast => 37,
            NodeType::TypeInstantiation => 38,
            NodeType::ErrorExpr => 39,
            NodeType::Return => 40,
            NodeType::LastBreak => 41,
            NodeType::LastContinue => 42,
            NodeType::ErrorLastStmt => 43,
        }
    }
}

/// Whether bit `i` of `word` is set.
pub open spec fn bit_of(word: u64, i: u64) -> bool {
    word & (1u64 << i) != 0
}

/// Fixed-size set of [`NodeType`]s, one bit per discriminant.
#[derive(Debug, Clone, Copy, PartialEq, Eq)]
pub struct AstTypesBitset(pub [u64; WORD_COUNT]);

impl View for AstTypesBitset {
    type V = Set<nat>;

    /// The discriminants whose bits are set.
    open spec fn view(&self) -> Set<nat> {
        Set::new(|i: nat| i < 64 * WORD_COUNT && bit_of(self.0@[(i / 64) as int], (i % 64) as u64))
    }
}

proof fn lemma_nonzero_has_bit(x: u64)
    ensures
        x != 0 <==> exists|i: u64| i < 64 && #[trigger] bit_of(x, i),
{
    assert(x != 0 ==> (
            x & (1u64 << 0u64) != 0 ||
            x & (1u64 << 1u64) != 0 ||
            x & (1u64 << 2u64) != 0 ||
            x & (1u64 << 3u64) != 0 ||
            x & (1u64 << 4u64) != 0 ||
            x & (1u64 << 5u64) != 0 ||
            x & (1u64 << 6u64) != 0 ||
            x & (1u64 << 7u64) != 0 ||
            x & (1u64 << 8u64) != 0 ||
            x & (1u64 << 9u64) != 0 ||
            x & (1u64 << 10u64) != 0 ||
            x & (1u64 << 11u64) != 0 ||
            x & (1u64 << 12u64) != 0 ||
            x & (1u64 << 13u64) != 0 ||
            x & (1u64 << 14u64) != 0 ||
            x & (1u64 << 15u64) != 0 ||
            x & (1u64 << 16u64) != 0 ||
            x & (1u64 << 17u64) != 0 ||
            x & (1u64 << 18u64) != 0 ||
            x & (1u64 << 19u64) != 0 ||
            x & (1u64 << 20u64) != 0 ||
            x & (1u64 << 21u64) != 0 ||
            x & (1u64 << 22u64) != 0 ||
            x & (1u64 << 23u64) != 0 ||
            x & (1u64 << 24u64) != 0 ||
            x & (1u64 << 25u64) != 0 ||
            x & (1u64 << 26u64) != 0 ||
            x & (1u64 << 27u64) != 0 ||
            x & (1u64 << 28u64) != 0 ||
            x & (1u64 << 29u64) != 0 ||
            x & (1u64 << 30u64) != 0 ||
            x & (1u64 << 31u64) != 0 ||
            x & (1u64 << 32u64) != 0 ||
            x & (1u64 << 33u64) != 0 ||
            x & (1u64 << 34u64) != 0 ||
            x & (1u64 << 35u64) != 0 ||
            x & (1u64 << 36u64) != 0 ||
            x & (1u64 << 37u64) != 0 ||
            x & (1u64 << 38u64) != 0 ||
            x & (1u64 << 39u64) != 0 ||
            x & (1u64 << 40u64) != 0 ||
            x & (1u64 << 41u64) != 0 ||
            x & (1u64 << 42u64) != 0 ||
            x & (1u64 << 43u64) != 0 ||
            x & (1u64 << 44u64) != 0 ||
            x & (1u64 << 45u64) != 0 ||
            x & (1u64 << 46u64) != 0 ||
            x & (1u64 << 47u64) != 0 ||
            x & (1u64 << 48u64) != 0 ||
            x & (1u64 << 49u64) != 0 ||
            x & (1u64 << 50u64) != 0 ||
            x & (1u64 << 51u64) != 0 ||
            x & (1u64 << 52u64) != 0 ||
            x & (1u64 << 53u64) != 0 ||
            x & (1u64 << 54u64) != 0 ||
            x & (1u64 << 55u64) != 0 ||
            x & (1u64 << 56u64) != 0 ||
            x & (1u64 << 57u64) != 0 ||
            x & (1u64 << 58u64) != 0 ||
            x & (1u64 << 59u64) != 0 ||
            x & (1u64 << 60u64) != 0 ||
            x & (1u64 << 61u64) != 0 ||
            x & (1u64 << 62u64) != 0 ||
            x & (1u64 << 63u64) != 0)) by (bit_vector);
    if x != 0 {
        assert(exists|i: u64| i < 64 && #[trigger] bit_of(x, i)) by {
            assert(bit_of(x, 0) || bit_of(x, 1) || bit_of(x, 2) || bit_of(x, 3) || bit_of(x, 4)
                || bit_of(x, 5) || bit_of(x, 6) || bit_of(x, 7) || bit_of(x, 8) || bit_of(x, 9)
                || bit_of(x, 10) || bit_of(x, 11) || bit_of(x, 12) || bit_of(x, 13) || bit_of(x, 14)
                || bit_of(x, 15) || bit_of(x, 16) || bit_of(x, 17) || bit_of(x, 18) || bit_of(x, 19)
                || bit_of(x, 20) || bit_of(x, 21) || bit_of(x, 22) || bit_of(x, 23) || bit_of(x, 24)
                || bit_of(x, 25) || bit_of(x, 26) || bit_of(x, 27) || bit_of(x, 28) || bit_of(x, 29)
                || bit_of(x, 30) || bit_of(x, 31) || bit_of(x, 32) || bit_of(x, 33) || bit_of(x, 34)
                || bit_of(x, 35) || bit_of(x, 36) || bit_of(x, 37) || bit_of(x, 38) || bit_of(x, 39)
                || bit_of(x, 40) || bit_of(x, 41) || bit_of(x, 42) || bit_of(x, 43) || bit_of(x, 44)
                || bit_of(x, 45) || bit_of(x, 46) || bit_of(x, 47) || bit_of(x, 48) || bit_of(x, 49)
                || bit_of(x, 50) || bit_of(x, 51) || bit_of(x, 52) || bit_of(x, 53) || bit_of(x, 54)
                || bit_of(x, 55) || bit_of(x, 56) || bit_of(x, 57) || bit_of(x, 58) || bit_of(x, 59)
                || bit_of(x, 60) || bit_of(x, 61) || bit_of(x, 62) || bit_of(x, 63));
        }
    } else {
        assert forall|i: u64| i < 64 implies !bit_of(x, i) by {
            assert(x == 0 && i < 64 ==> x & (1u64 << i) == 0) by (bit_vector);
        }
    }
}

proof fn lemma_bit_or(w: u64, b: u64, i: u64)
    requires
        b < 64,
        i < 64,
    ensures
        bit_of(w | (1u64 << b), i) == (bit_of(w, i) || i == b),
{
    assert(b < 64 && i < 64 ==> ((w | (1u64 << b)) & (1u64 << i) != 0) == ((w & (1u64 << i) != 0) || i == b))
        by (bit_vector);
}

proof fn lemma_bit_and(a: u64, b: u64, i: u64)
    requires
        i < 64,
    ensures
        bit_of(a & b, i) == (bit_of(a, i) && bit_of(b, i)),
{
    assert(i < 64 ==> (((a & b) & (1u64 << i) != 0) == ((a & (1u64 << i) != 0) && (b & (1u64 << i) != 0))))
        by (bit_vector);
}

proof fn lemma_bit_of_zero(i: u64)
    requires
        i < 64,
    ensures
        !bit_of(0, i),
{
    assert(i < 64 ==> 0u64 & (1u64 << i) == 0) by (bit_vector);
}

impl AstTypesBitset {
    /// The empty set.
    pub fn new() -> (s: Self)
        ensures
            s@ == Set::<nat>::empty(),
    {
        let s = AstTypesBitset([0; WORD_COUNT]);
        proof {
            assert forall|i: nat| !s@.contains(i) by {
                if i < 64 * WORD_COUNT {
                    lemma_bit_of_zero((i % 64) as u64);
                }
            }
            assert(s@ =~= Set::<nat>::empty());
        }
        s
    }

    /// The set holding exactly the given types.
    pub fn from_types(types: &[NodeType]) -> (s: Self)
        ensures
            s@ == Set::new(|i: nat| exists|k: int| 0 <= k < types@.len() && types@[k].spec_index() == i),
    {
        let mut bitset = Self::new();
        let mut i: usize = 0;
        while i < types.len()
            invariant
                i <= types@.len(),
                bitset@ == Set::new(|n: nat| exists|k: int| 0 <= k < i && types@[k].spec_index() == n),
            decreases types@.len() - i,
        {
            let ghost before = bitset@;
            bitset.set(types[i]);
            proof {
                let target = Set::new(|n: nat| exists|k: int| 0 <= k < i + 1 && types@[k].spec_index() == n);
                assert forall|n: nat| target.contains(n) <==> bitset@.contains(n) by {
                    if target.contains(n) {
                        let k = choose|k: int| 0 <= k < i + 1 && types@[k].spec_index() == n;
                        if k < i {
                            assert(before.contains(n));
                        }
                    }
                    if bitset@.contains(n) && n != types@[i as int].spec_index() {
                        assert(before.contains(n));
                    }
                }
                assert(bitset@ =~= target);
            }
            i += 1;
        }
        bitset
    }

    /// Word index and bit mask of `ty`.
    fn index_and_mask(ty: NodeType) -> (r: (usize, u64))
        ensures
            r.0 == ty.spec_index() / 64,
            r.0 < WORD_COUNT,
            r.1 == 1u64 << ((ty.spec_index() % 64) as u64),
    {
        let i = ty.index();
        (i / 64, 1u64 << ((i % 64) as u64))
    }

    /// Whether `ty` is in the set.
    pub fn has(&self, ty: NodeType) -> (b: bool)
        ensures
            b == self@.contains(ty.spec_index()),
    {
        let (index, mask) = Self::index_and_mask(ty);
        (self.0[index] & mask) != 0
    }

    /// `has` by discriminant value, for callers indexing bucket arrays.
    pub fn has_index(&self, type_index: usize) -> (b: bool)
        requires
            type_index < 64 * WORD_COUNT,
        ensures
            b == self@.contains(type_index as nat),
    {
        (self.0[type_index / 64] & (1u64 << ((type_index % 64) as u64))) != 0
    }

    /// Adds `ty` to the set.
    pub fn set(&mut self, ty: NodeType)
        ensures
            final(self)@ == old(self)@.insert(ty.spec_index()),
    {
        let (index, mask) = Self::index_and_mask(ty);
        let ghost old_set = self@;
        let ghost old_words = self.0@;
        let word = self.0[index] | mask;
        self.0[index] = word;
        proof {
            let t = ty.spec_index();
            assert forall|n: nat| #[trigger] self@.contains(n) <==> old_set.insert(t).contains(n) by {
                if n < 64 * WORD_COUNT {
                    lemma_bit_or(old_words[(n / 64) as int], (t % 64) as u64, (n % 64) as u64);
                }
            }
            assert(self@ =~= old_set.insert(t));
        }
    }

    /// Whether the two sets share a type.
    pub fn intersects(&self, other: &Self) -> (b: bool)
        ensures
            b == exists|n: nat| self@.contains(n) && other@.contains(n),
    {
        let mut intersection: u64 = 0;
        let mut w: usize = 0;
        while w < WORD_COUNT
            invariant
                w <= WORD_COUNT,
                (intersection != 0) == exists|n: nat| n < 64 * w && #[trigger] self@.contains(n) && other@.contains(n),
            decreases WORD_COUNT - w,
        {
            let both = self.0[w] & other.0[w];
            proof {
                lemma_nonzero_has_bit(both);
                lemma_nonzero_has_bit(intersection | both);
                lemma_nonzero_has_bit(intersection);
                if intersection | both != 0 {
                    let i = choose|i: u64| i < 64 && #[trigger] bit_of(intersection | both, i);
                    lemma_bit_or_word(intersection, both, i);
                    if bit_of(both, i) {
                        lemma_bit_and(self.0@[w as int], other.0@[w as int], i);
                        let n = (64 * w + i) as nat;
                        assert(n / 64 == w && n % 64 == i) by (nonlinear_arith) requires n == 64 * w + i, i < 64;
                        assert(self@.contains(n) && other@.contains(n));
                    }
                } else {
                    assert forall|n: nat| n < 64 * (w + 1) && #[trigger] self@.contains(n) implies !other@.contains(n) by {
                        if n >= 64 * w {
                            let i = (n % 64) as u64;
                            assert(n / 64 == w) by (nonlinear_arith) requires 64 * w <= n < 64 * (w + 1);
                            lemma_bit_and(self.0@[w as int], other.0@[w as int], i);
                            lemma_bit_or_word(intersection, both, i);
                        }
                    }
                }
            }
            intersection = intersection | both;
            w += 1;
        }
        intersection != 0
    }
}

proof fn lemma_bit_or_word(a: u64, b: u64, i: u64)
    requires
        i < 64,
    ensures
        bit_of(a | b, i) == (bit_of(a, i) || bit_of(b, i)),
{
    assert(i < 64 ==> (((a | b) & (1u64 << i) != 0) == ((a & (1u64 << i) != 0) || (b & (1u64 << i) != 0))))
        by (bit_vector);
}

impl Default for AstTypesBitset {
    fn default() -> (s: Self)
        ensures
            s@ == Set::<nat>::empty(),
    {
        Self::new()
    }
}

/// The node type of a statement.
pub open spec fn stmt_node_type(stmt: Statement) -> NodeType {
    match stmt {
        Statement::Assignment(_) => NodeType::Assignment,
        Statement::FunctionCall(_) => NodeType::FunctionCallStmt,
        Statement::DoBlock(_) => NodeType::DoBlock,
        Statement::WhileLoop(_) => NodeType::WhileLoop,
        Statement::RepeatLoop(_) => NodeType::RepeatLoop,
        Statement::IfStatement(_) => NodeType::IfStatement,
        Statement::NumericFor(_) => NodeType::NumericFor,
        Statement::GenericFor(_) => NodeType::GenericFor,
        Statement::FunctionDecl(_) => NodeType::FunctionDecl,
        Statement::LocalFunction(_) => NodeType::LocalFunction,
        Statement::LocalAssignment(_) => NodeType::LocalAssignment,
        Statement::EmptyStatement(_) => NodeType::EmptyStatement,
        Statement::Goto(_) => NodeType::Goto,
        Statement::Label(_) => NodeType::Label,
        Statement::GlobalDeclaration(_) => NodeType::GlobalDeclaration,
        Statement::GlobalFunction(_) => NodeType::GlobalFunction,
        Statement::GlobalStar(_) => NodeType::GlobalStar,
        Statement::Break(_) => NodeType::Break,
        Statement::CompoundAssignment(_) => NodeType::CompoundAssignment,
        Statement::TypeDeclaration(_) => NodeType::TypeDeclaration,
        Statement::Error(_) => NodeType::ErrorStmt,
    }
}

/// The node type of a block's final statement.
pub open spec fn last_stmt_node_type(last: LastStatement) -> NodeType {
    match last {
        LastStatement::Return(_) => NodeType::Return,
        LastStatement::Break(_) => NodeType::LastBreak,
        LastStatement::Continue(_) => NodeType::LastContinue,
        LastStatement::Error(_) => NodeType::ErrorLastStmt,
    }
}

/// The node type of an expression.
pub open spec fn expr_node_type(expr: Expression) -> NodeType {
    match expr {
        Expression::Nil(_) => NodeType::Nil,
        Expression::False(_) => NodeType::False,
        Expression::True(_) => NodeType::True,
        Expression::Number(_) => NodeType::Number,
        Expression::StringLiteral(_) => NodeType::StringLiteral,
        Expression::VarArg(_) => NodeType::VarArg,
        Expression::FunctionDef(_) => NodeType::FunctionDef,
        Expression::Var(_) => NodeType::Var,
        Expression::FunctionCall(_) => NodeType::FunctionCallExpr,
        Expression::Parenthesized(_) => NodeType::Parenthesized,
        Expression::TableConstructor(_) => NodeType::TableConstructor,
        Expression::BinaryOp(_) => NodeType::BinaryOp,
        Expression::UnaryOp(_) => NodeType::UnaryOp,
        Expression::IfExpression(_) => NodeType::IfExpression,
        Expression::InterpolatedString(_) => NodeType::InterpolatedString,
        Expression::TypeCast(_) => NodeType::TypeCast,
        Expression::Error(_) => NodeType::ErrorExpr,
    }
}

impl NodeType {
    pub fn of_stmt(stmt: &Statement) -> (t: NodeType)
        ensures
            t == stmt_node_type(*stmt),
    {
        match stmt {
            Statement::Assignment(_) => NodeType::Assignment,
            Statement::FunctionCall(_) => NodeType::FunctionCallStmt,
            Statement::DoBlock(_) => NodeType::DoBlock,
            Statement::WhileLoop(_) => NodeType::WhileLoop,
            Statement::RepeatLoop(_) => NodeType::RepeatLoop,
            Statement::IfStatement(_) => NodeType::IfStatement,
            Statement::NumericFor(_) => NodeType::NumericFor,
            Statement::GenericFor(_) => NodeType::GenericFor,
            Statement::FunctionDecl(_) => NodeType::FunctionDecl,
            Statement::LocalFunction(_) => NodeType::LocalFunction,
            Statement::LocalAssignment(_) => NodeType::LocalAssignment,
            Statement::EmptyStatement(_) => NodeType::EmptyStatement,
            Statement::Goto(_) => NodeType::Goto,
            Statement::Label(_) => NodeType::Label,
            Statement::GlobalDeclaration(_) => NodeType::GlobalDeclaration,
            Statement::GlobalFunction(_) => NodeType::GlobalFunction,
            Statement::GlobalStar(_) => NodeType::GlobalStar,
            Statement::Break(_) => NodeType::Break,
            Statement::CompoundAssignment(_) => NodeType::CompoundAssignment,
            Statement::TypeDeclaration(_) => NodeType::TypeDeclaration,
            Statement::Error(_) => NodeType::ErrorStmt,
        }
    }

    pub fn of_last_stmt(last: &LastStatement) -> (t: NodeType)
        ensures
            t == last_stmt_node_type(*last),
    {
        match last {
            LastStatement::Return(_) => NodeType::Return,
            LastStatement::Break(_) => NodeType::LastBreak,
            LastStatement::Continue(_) => NodeType::LastContinue,
            LastStatement::Error(_) => NodeType::ErrorLastStmt,
        }
    }

    pub fn of_expr(expr: &Expression) -> (t: NodeType)
        ensures
            t == expr_node_type(*expr),
    {
        match expr {
            Expression::Nil(_) => NodeType::Nil,
            Expression::False(_) => NodeType::False,
            Expression::True(_) => NodeType::True,
            Expression::Number(_) => NodeType::Number,
            Expression::StringLiteral(_) => NodeType::StringLiteral,
            Expression::VarArg(_) => NodeType::VarArg,
            Expression::FunctionDef(_) => NodeType::FunctionDef,
            Expression::Var(_) => NodeType::Var,
            Expression::FunctionCall(_) => NodeType::FunctionCallExpr,
            Expression::Parenthesized(_) => NodeType::Parenthesized,
            Expression::TableConstructor(_) => NodeType::TableConstructor,
            Expression::BinaryOp(_) => NodeType::BinaryOp,
            Expression::UnaryOp(_) => NodeType::UnaryOp,
            Expression::IfExpression(_) => NodeType::IfExpression,
            Expression::InterpolatedString(_) => NodeType::InterpolatedString,
            Expression::TypeCast(_) => NodeType::TypeCast,
            Expression::Error(_) => NodeType::ErrorExpr,
        }
    }
}

/// Borrowed view of one AST node, as dispatched to lint rules.
#[derive(Clone, Copy)]
pub enum NodeKind<'ast> {
    Statement(&'ast Statement),
    LastStatement(&'ast LastStatement),
    Expression(&'ast Expression),
}

impl NodeKind<'_> {
    pub fn node_type(self) -> (t: NodeType)
        ensures
            t == match self {
                NodeKind::Statement(stmt) => stmt_node_type(*stmt),
                NodeKind::LastStatement(last) => last_stmt_node_type(*last),
                NodeKind::Expression(expr) => expr_node_type(*expr),
            },
    {
        match self {
            NodeKind::Statement(stmt) => NodeType::of_stmt(stmt),
            NodeKind::LastStatement(last) => NodeType::of_last_stmt(last),
            NodeKind::Expression(expr) => NodeType::of_expr(expr),
        }
    }
}

} // verus!
