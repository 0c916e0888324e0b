//! The data that the library works on, each type with the mathematical value
//! that the contracts speak of.

use vstd::prelude::*;

verus! {

/// A named piece of reusable text.
#[derive(Clone, Debug)]
pub struct Template {
    /// The heading's text; `/` separates the segments of its path.
    pub name: String,
    /// The text under the heading, placeholders included.
    pub body: String,
}

/// What a `Template` is, as plain values.
pub struct TemplateView {
    pub name: Seq<char>,
    pub body: Seq<char>,
}

impl View for Template {
    type V = TemplateView;

    open spec fn view(&self) -> TemplateView {
        TemplateView { name: self.name@, body: self.body@ }
    }
}

impl DeepView for Template {
    type V = TemplateView;

    open spec fn deep_view(&self) -> TemplateView {
        self@
    }
}

/// One row of the flattened hierarchy of template names.
#[derive(Clone, Debug)]
pub struct TreeItem {
    /// The path segment shown on this row.
    pub label: String,
    /// How far the row lies below the top level.
    pub depth: usize,
    /// The template that this row opens; `None` for a row that only groups.
    pub template_index: Option<usize>,
}

/// What a `TreeItem` is, as plain values.
pub struct TreeItemView {
    pub label: Seq<char>,
    pub depth: int,
    pub template_index: Option<usize>,
}

impl View for TreeItem {
    type V = TreeItemView;

    open spec fn view(&self) -> TreeItemView {
        TreeItemView {
            label: self.label@,
            depth: self.depth as int,
            template_index: self.template_index,
        }
    }
}

impl DeepView for TreeItem {
    type V = TreeItemView;

    open spec fn deep_view(&self) -> TreeItemView {
        self@
    }
}

/// A value that the user fills in for one variable of a template.
#[derive(Clone, Debug)]
pub struct Field {
    /// The variable's name: the key by which placeholders find the field.
    pub name: String,
    /// The text shown beside the input.
    pub label: String,
    /// What the user has typed so far.
    pub value: String,
}

/// What a `Field` is, as plain values.
pub struct FieldView {
    pub name: Seq<char>,
    pub label: Seq<char>,
    pub value: Seq<char>,
}

impl View for Field {
    type V = FieldView;

    open spec fn view(&self) -> FieldView {
        FieldView { name: self.name@, label: self.label@, value: self.value@ }
    }
}

impl DeepView for Field {
    type V = FieldView;

    open spec fn deep_view(&self) -> FieldView {
        self@
    }
}

/// One piece of a template's body.
#[derive(Clone, Debug)]
pub enum Token {
    /// Literal text.
    Text(String),
    /// A placeholder that stands for the value of a field.
    Var {
        name: String,
        desc: Option<String>,
        /// The placeholder as it stands in the body, braces included.
        raw: String,
    },
    /// A placeholder that stands for one of several fixed options.
    Random {
        options: Vec<String>,
        /// The option that is selected at the moment.
        choice: String,
        /// The placeholder as it stands in the body, braces included.
        raw: String,
    },
}

/// What a `Token` is, as plain values.
pub enum TokenView {
    Text(Seq<char>),
    Var { name: Seq<char>, desc: Option<Seq<char>>, raw: Seq<char> },
    Random { options: Seq<Seq<char>>, choice: Seq<char>, raw: Seq<char> },
}

impl View for Token {
    type V = TokenView;

    open spec fn view(&self) -> TokenView {
        match self {
            Token::Text(text) => TokenView::Text(text@),
            Token::Var { name, desc, raw } => TokenView::Var {
                name: name@,
                desc: desc.deep_view(),
                raw: raw@,
            },
            Token::Random { options, choice, raw } => TokenView::Random {
                options: options.deep_view(),
                choice: choice@,
                raw: raw@,
            },
        }
    }
}

impl DeepView for Token {
    type V = TokenView;

    open spec fn deep_view(&self) -> TokenView {
        self@
    }
}

} // verus!
