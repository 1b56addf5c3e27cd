//! Model of the parsed document tree that the segmenter walks.
//!
//! A document is a rooted tree of nodes. Each node carries a kind tag, the
//! literal text it holds (empty for most inner nodes), an optional resolved
//! source location, and its ordered children. The classifier maps a node's
//! kind, together with the ambient code-mode flag, to the traversal action
//! the segmenter must take.

use vstd::prelude::*;

verus! {

/// A resolved location in the source document: the byte range the node
/// occupies.
#[derive(Debug, Clone, Copy, PartialEq, Eq, Structural)]
pub struct Span {
    pub start: usize,
    pub end: usize,
}

/// The node kinds the segmenter distinguishes. Every kind that gets the
/// default text-bearing treatment is folded into `Text`.
#[derive(Debug, Clone, Copy, PartialEq, Eq, Structural)]
pub enum Kind {
    /// A prose-markup region; exits code mode.
    Markup,
    /// A paragraph break; seals the paragraph being built.
    Parbreak,
    /// A raw code block; replaced by a placeholder token.
    Raw,
    /// An equation; replaced by a placeholder token.
    Equation,
    /// A field-access expression; replaced by a placeholder token.
    FieldAccess,
    /// A hash marker; ignored with its subtree.
    Hash,
    /// A label; ignored with its subtree.
    Label,
    /// A module import; ignored with its subtree.
    ModuleImport,
    /// A module include; ignored with its subtree.
    ModuleInclude,
    /// A line comment; ignored with its subtree.
    LineComment,
    /// A block comment; ignored with its subtree.
    BlockComment,
    /// An identifier; ignored with its subtree.
    Ident,
    /// An underscore marker; ignored with its subtree.
    Underscore,
    /// A star marker; ignored with its subtree.
    Star,
    /// A function call; enters code mode.
    FuncCall,
    /// A show rule; enters code mode.
    ShowRule,
    /// A set rule; enters code mode.
    SetRule,
    /// A let binding; enters code mode.
    LetBinding,
    /// Whitespace; contributes only to a non-empty paragraph.
    Space,
    /// Any other, text-bearing kind.
    Text,
}

/// A node of the document tree, as handed to the library by the parser's
/// caller: kind tag, literal text (as bytes), resolved source location
/// (`None` for synthesized nodes), ordered children.
#[derive(Debug)]
pub struct SyntaxNode {
    pub kind: Kind,
    pub text: Vec<u8>,
    pub span: Option<Span>,
    pub children: Vec<SyntaxNode>,
}

/// What the segmenter does at a node, as a function of its kind and the
/// ambient code-mode flag.
#[derive(Debug, Clone, Copy, PartialEq, Eq, Structural)]
pub enum Action {
    /// Skip the node and its whole subtree.
    Ignore,
    /// Append a placeholder token naming the kind (only to a non-empty
    /// paragraph), then skip the subtree.
    Placeholder,
    /// Seal the current paragraph if non-empty, then walk the children.
    BreakParagraph,
    /// Walk the children in code mode.
    EnterCode,
    /// In code mode: a nested markup region begins; walk the children in
    /// prose mode.
    ExitCode,
    /// In code mode: contribute nothing, walk the children still in code
    /// mode.
    StayCode,
    /// Append the literal text unless the paragraph is still empty; skip
    /// the subtree when the paragraph is empty and the text is non-empty.
    Whitespace,
    /// Append the literal text if non-empty, then walk the children.
    TextBearing,
}

/// The classifier: a pure mapping from node kind and code-mode flag to the
/// traversal action.
pub open spec fn spec_classify(kind: Kind, code_mode: bool) -> Action {
    if code_mode {
        if kind == Kind::Markup {
            Action::ExitCode
        } else {
            Action::StayCode
        }
    } else {
        match kind {
            Kind::Parbreak => Action::BreakParagraph,
            Kind::Raw | Kind::Equation | Kind::FieldAccess => Action::Placeholder,
            Kind::Hash
            | Kind::Label
            | Kind::ModuleImport
            | Kind::ModuleInclude
            | Kind::LineComment
            | Kind::BlockComment
            | Kind::Ident
            | Kind::Underscore
            | Kind::Star => Action::Ignore,
            Kind::FuncCall | Kind::ShowRule | Kind::SetRule | Kind::LetBinding => Action::EnterCode,
            Kind::Space => Action::Whitespace,
            _ => Action::TextBearing,
        }
    }
}

/// Executable classifier.
pub fn classify(kind: Kind, code_mode: bool) -> (action: Action)
    ensures
        action == spec_classify(kind, code_mode),
{
    if code_mode {
        if kind == Kind::Markup {
            Action::ExitCode
        } else {
            Action::StayCode
        }
    } else {
        match kind {
            Kind::Parbreak => Action::BreakParagraph,
            Kind::Raw | Kind::Equation | Kind::FieldAccess => Action::Placeholder,
            Kind::Hash
            | Kind::Label
            | Kind::ModuleImport
            | Kind::ModuleInclude
            | Kind::LineComment
            | Kind::BlockComment
            | Kind::Ident
            | Kind::Underscore
            | Kind::Star => Action::Ignore,
            Kind::FuncCall | Kind::ShowRule | Kind::SetRule | Kind::LetBinding => Action::EnterCode,
            Kind::Space => Action::Whitespace,
            _ => Action::TextBearing,
        }
    }
}

/// The placeholder token substituted for a node of the given kind, as UTF-8
/// bytes: the kind's name in backticks.
pub open spec fn spec_placeholder_text(kind: Kind) -> Seq<u8> {
    match kind {
        // "`raw block`"
        Kind::Raw => seq![96u8, 114u8, 97u8, 119u8, 32u8, 98u8, 108u8, 111u8, 99u8, 107u8, 96u8],
        // "`equation`"
        Kind::Equation => seq![96u8, 101u8, 113u8, 117u8, 97u8, 116u8, 105u8, 111u8, 110u8, 96u8],
        // "`field access`"
        Kind::FieldAccess => seq![
            96u8,
            102u8,
            105u8,
            101u8,
            108u8,
            100u8,
            32u8,
            97u8,
            99u8,
            99u8,
            101u8,
            115u8,
            115u8,
            96u8,
        ],
        _ => Seq::empty(),
    }
}

/// Executable placeholder text.
pub fn placeholder_text(kind: Kind) -> (text: Vec<u8>)
    ensures
        text@ == spec_placeholder_text(kind),
{
    match kind {
        Kind::Raw => {
            let v: Vec<u8> = vec![96u8, 114u8, 97u8, 119u8, 32u8, 98u8, 108u8, 111u8, 99u8, 107u8, 96u8];
            assert(v@ =~= spec_placeholder_text(Kind::Raw));
            v
        },
        Kind::Equation => {
            let v: Vec<u8> = vec![96u8, 101u8, 113u8, 117u8, 97u8, 116u8, 105u8, 111u8, 110u8, 96u8];
            assert(v@ =~= spec_placeholder_text(Kind::Equation));
            v
        },
        Kind::FieldAccess => {
            let v: Vec<u8> = vec![
                96u8,
                102u8,
                105u8,
                101u8,
                108u8,
                100u8,
                32u8,
                97u8,
                99u8,
                99u8,
                101u8,
                115u8,
                115u8,
                96u8,
            ];
            assert(v@ =~= spec_placeholder_text(Kind::FieldAccess));
            v
        },
        _ => {
            let v: Vec<u8> = Vec::new();
            assert(v@ =~= spec_placeholder_text(kind));
            v
        },
    }
}

} // verus!
