//! Tokens of a condition expression.
use vstd::prelude::*;

verus! {

/// Model of a [`ConditionToken`].
pub enum TokenView {
    LeftParenthesis,
    RightParenthesis,
    Space,
    Not,
    And,
    Or,
    SelectionReference(Seq<char>),
    ParenthesisContainer(Seq<TokenView>),
    AndContainer(Seq<TokenView>),
    OrContainer(Seq<TokenView>),
    NotContainer(Seq<TokenView>),
    OperandContainer(Seq<TokenView>),
}

impl TokenView {
    /// The tokens inside a container; nothing for any other token.
    pub open spec fn sub(self) -> Seq<TokenView> {
        match self {
            TokenView::ParenthesisContainer(sub) => sub,
            TokenView::AndContainer(sub) => sub,
            TokenView::OrContainer(sub) => sub,
            TokenView::NotContainer(sub) => sub,
            TokenView::OperandContainer(sub) => sub,
            _ => seq![],
        }
    }

    /// The same kind of container around other tokens; any other token is unchanged.
    pub open spec fn with_sub(self, sub: Seq<TokenView>) -> TokenView {
        match self {
            TokenView::ParenthesisContainer(_) => TokenView::ParenthesisContainer(sub),
            TokenView::AndContainer(_) => TokenView::AndContainer(sub),
            TokenView::OrContainer(_) => TokenView::OrContainer(sub),
            TokenView::NotContainer(_) => TokenView::NotContainer(sub),
            TokenView::OperandContainer(_) => TokenView::OperandContainer(sub),
            _ => self,
        }
    }

    /// `and` and `or`.
    pub open spec fn is_logical(self) -> bool {
        self is And || self is Or
    }
}

/// Taking the tokens out of a container and putting them back changes nothing.
pub proof fn law_replace_sub_tokens(token: TokenView, sub: Seq<TokenView>)
    ensures
        token.with_sub(token.sub()) == token,
        token.with_sub(sub).with_sub(token.sub()) == token,
{
}

/// A container holds the tokens that it was made of, and nothing else holds any.
pub proof fn law_sub_tokens(sub: Seq<TokenView>, name: Seq<char>)
    ensures
        TokenView::ParenthesisContainer(sub).sub() == sub,
        TokenView::AndContainer(sub).sub() == sub,
        TokenView::OrContainer(sub).sub() == sub,
        TokenView::NotContainer(sub).sub() == sub,
        TokenView::OperandContainer(sub).sub() == sub,
        TokenView::SelectionReference(name).sub() == Seq::<TokenView>::empty(),
        TokenView::LeftParenthesis.sub() == Seq::<TokenView>::empty(),
        TokenView::RightParenthesis.sub() == Seq::<TokenView>::empty(),
        TokenView::Space.sub() == Seq::<TokenView>::empty(),
        TokenView::Not.sub() == Seq::<TokenView>::empty(),
        TokenView::And.sub() == Seq::<TokenView>::empty(),
        TokenView::Or.sub() == Seq::<TokenView>::empty(),
{
}

/// Other tokens in a container keep the kind of the container.
pub proof fn law_other_sub_tokens(token: TokenView, a: Seq<TokenView>, b: Seq<TokenView>)
    ensures
        TokenView::ParenthesisContainer(a).with_sub(b) == TokenView::ParenthesisContainer(b),
        TokenView::AndContainer(a).with_sub(b) == TokenView::AndContainer(b),
        TokenView::OrContainer(a).with_sub(b) == TokenView::OrContainer(b),
        TokenView::NotContainer(a).with_sub(b) == TokenView::NotContainer(b),
        TokenView::OperandContainer(a).with_sub(b) == TokenView::OperandContainer(b),
        token is SelectionReference || token is LeftParenthesis || token is RightParenthesis
            || token is Space || token is Not || token is And || token is Or ==> token.with_sub(b)
            == token,
{
}

/// The logical operators are `and` and `or`.
pub proof fn law_logical_operators(token: TokenView)
    ensures
        token.is_logical() <==> token == TokenView::And || token == TokenView::Or,
{
}

/// A token of a condition expression. The containers do not occur in the expression itself:
/// parsing wraps the tokens that belong together in them.
#[derive(Debug)]
pub enum ConditionToken {
    LeftParenthesis,
    RightParenthesis,
    Space,
    Not,
    And,
    Or,
    SelectionReference(String),
    /// What stands between two matching parentheses.
    ParenthesisContainer(Vec<ConditionToken>),
    /// Conditions joined by `and`.
    AndContainer(Vec<ConditionToken>),
    /// Conditions joined by `or`.
    OrContainer(Vec<ConditionToken>),
    /// The one condition that a `not` negates.
    NotContainer(Vec<ConditionToken>),
    /// What stands between two logical operators.
    OperandContainer(Vec<ConditionToken>),
}

impl ConditionToken {
    pub open spec fn model(self) -> TokenView
        decreases self,
    {
        match self {
            ConditionToken::LeftParenthesis => TokenView::LeftParenthesis,
            ConditionToken::RightParenthesis => TokenView::RightParenthesis,
            ConditionToken::Space => TokenView::Space,
            ConditionToken::Not => TokenView::Not,
            ConditionToken::And => TokenView::And,
            ConditionToken::Or => TokenView::Or,
            ConditionToken::SelectionReference(name) => TokenView::SelectionReference(name@),
            ConditionToken::ParenthesisContainer(sub) => TokenView::ParenthesisContainer(
                token_views(sub@),
            ),
            ConditionToken::AndContainer(sub) => TokenView::AndContainer(token_views(sub@)),
            ConditionToken::OrContainer(sub) => TokenView::OrContainer(token_views(sub@)),
            ConditionToken::NotContainer(sub) => TokenView::NotContainer(token_views(sub@)),
            ConditionToken::OperandContainer(sub) => TokenView::OperandContainer(token_views(sub@)),
        }
    }
}

pub open spec fn token_views(tokens: Seq<ConditionToken>) -> Seq<TokenView>
    decreases tokens,
{
    Seq::new(
        tokens.len(),
        |i: int|
            if 0 <= i < tokens.len() {
                tokens[i].model()
            } else {
                TokenView::Space
            },
    )
}

impl View for ConditionToken {
    type V = TokenView;

    open spec fn view(&self) -> TokenView {
        self.model()
    }
}

impl ConditionToken {
    /// The same kind of container around `sub_tokens`.
    pub fn replace_subtoken(&self, sub_tokens: Vec<ConditionToken>) -> (r: ConditionToken)
        ensures
            r@ == self@.with_sub(token_views(sub_tokens@)),
    {
        match self {
            ConditionToken::ParenthesisContainer(_) => ConditionToken::ParenthesisContainer(
                sub_tokens,
            ),
            ConditionToken::AndContainer(_) => ConditionToken::AndContainer(sub_tokens),
            ConditionToken::OrContainer(_) => ConditionToken::OrContainer(sub_tokens),
            ConditionToken::NotContainer(_) => ConditionToken::NotContainer(sub_tokens),
            ConditionToken::OperandContainer(_) => ConditionToken::OperandContainer(sub_tokens),
            ConditionToken::LeftParenthesis => ConditionToken::LeftParenthesis,
            ConditionToken::RightParenthesis => ConditionToken::RightParenthesis,
            ConditionToken::Space => ConditionToken::Space,
            ConditionToken::Not => ConditionToken::Not,
            ConditionToken::And => ConditionToken::And,
            ConditionToken::Or => ConditionToken::Or,
            ConditionToken::SelectionReference(name) => ConditionToken::SelectionReference(
                name.clone(),
            ),
        }
    }

    /// The tokens inside a container; nothing for any other token.
    pub fn sub_tokens(&self) -> (r: Vec<ConditionToken>)
        ensures
            token_views(r@) == self@.sub(),
            r@.len() == self@.sub().len(),
    {
        match self {
            ConditionToken::ParenthesisContainer(sub_tokens) => clone_tokens(sub_tokens),
            ConditionToken::AndContainer(sub_tokens) => clone_tokens(sub_tokens),
            ConditionToken::OrContainer(sub_tokens) => clone_tokens(sub_tokens),
            ConditionToken::NotContainer(sub_tokens) => clone_tokens(sub_tokens),
            ConditionToken::OperandContainer(sub_tokens) => clone_tokens(sub_tokens),
            _ => Vec::new(),
        }
    }

    /// As [`ConditionToken::sub_tokens`], but nothing for what stands in parentheses.
    pub fn sub_tokens_without_parenthesis(&self) -> (r: Vec<ConditionToken>)
        ensures
            token_views(r@) == (if self@ is ParenthesisContainer {
                seq![]
            } else {
                self@.sub()
            }),
    {
        match self {
            ConditionToken::ParenthesisContainer(_) => Vec::new(),
            _ => self.sub_tokens(),
        }
    }
}

impl IntoIterator for ConditionToken {
    type Item = ConditionToken;

    type IntoIter = std::vec::IntoIter<ConditionToken>;

    fn into_iter(self) -> (r: Self::IntoIter)
        ensures
            token_views(vstd::std_specs::iter::IteratorSpec::remaining(&r)) == self@.sub(),
    {
        let v = match self {
            ConditionToken::ParenthesisContainer(sub_tokens) => sub_tokens,
            ConditionToken::AndContainer(sub_tokens) => sub_tokens,
            ConditionToken::OrContainer(sub_tokens) => sub_tokens,
            ConditionToken::NotContainer(sub_tokens) => sub_tokens,
            ConditionToken::OperandContainer(sub_tokens) => sub_tokens,
            _ => Vec::new(),
        };
        v.into_iter()
    }
}

impl Clone for ConditionToken {
    fn clone(&self) -> (r: Self)
        ensures
            r@ == self@,
        decreases self,
    {
        match self {
            ConditionToken::LeftParenthesis => ConditionToken::LeftParenthesis,
            ConditionToken::RightParenthesis => ConditionToken::RightParenthesis,
            ConditionToken::Space => ConditionToken::Space,
            ConditionToken::Not => ConditionToken::Not,
            ConditionToken::And => ConditionToken::And,
            ConditionToken::Or => ConditionToken::Or,
            ConditionToken::SelectionReference(name) => ConditionToken::SelectionReference(
                name.clone(),
            ),
            ConditionToken::ParenthesisContainer(sub) => ConditionToken::ParenthesisContainer(
                clone_tokens(sub),
            ),
            ConditionToken::AndContainer(sub) => ConditionToken::AndContainer(clone_tokens(sub)),
            ConditionToken::OrContainer(sub) => ConditionToken::OrContainer(clone_tokens(sub)),
            ConditionToken::NotContainer(sub) => ConditionToken::NotContainer(clone_tokens(sub)),
            ConditionToken::OperandContainer(sub) => ConditionToken::OperandContainer(
                clone_tokens(sub),
            ),
        }
    }
}

fn clone_tokens(tokens: &Vec<ConditionToken>) -> (r: Vec<ConditionToken>)
    ensures
        token_views(r@) == token_views(tokens@),
    decreases tokens,
{
    let mut r: Vec<ConditionToken> = Vec::new();
    for i in 0..tokens.len()
        invariant
            r@.len() == i,
            forall|j: int| 0 <= j < i ==> (#[trigger] r@[j])@ == tokens@[j]@,
    {
        assert(decreases_to!(tokens => tokens@[i as int]));
        r.push(tokens[i].clone());
    }
    assert(token_views(r@) =~= token_views(tokens@));
    r
}

} // verus!
