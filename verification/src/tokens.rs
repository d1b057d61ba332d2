//! Colors and tokens used for rendering text.
//!
//! The rendering contract of the whole library is an ordered sequence of
//! `(text, color)` pairs; colors are drawn from a fixed palette keyed by
//! semantic role.

use vstd::prelude::*;

verus! {

use vstd::string::StringExecFns;

/// One color of the fixed palette.
#[derive(Clone, Copy, Debug, PartialEq, Eq, Structural)]
pub enum Color {
    White,
    Blue,
    Magenta,
    Orange,
    Red,
    Purple,
    Green,
    Gray10,
    Gray20,
    Gray30,
    Gray35,
    Gray40,
    Gray60,
    Gray99,
    GrayAa,
}

impl Color {
    /// The palette entry as an RGB triple.
    pub fn rgb(self) -> (r: (u8, u8, u8))
        ensures
            r == self.spec_rgb(),
    {
        match self {
            Color::White => (0xff, 0xff, 0xff),
            Color::Blue => (0x3e, 0xbc, 0xe6),
            Color::Magenta => (0xf5, 0x12, 0x81),
            Color::Orange => (0xe6, 0xab, 0x3e),
            Color::Red => (0xff, 0x00, 0x0b),
            Color::Purple => (0x89, 0x1f, 0xff),
            Color::Green => (0x02, 0xed, 0x6e),
            Color::Gray10 => (0x10, 0x10, 0x10),
            Color::Gray20 => (0x20, 0x20, 0x20),
            Color::Gray30 => (0x30, 0x30, 0x30),
            Color::Gray35 => (0x35, 0x35, 0x35),
            Color::Gray40 => (0x40, 0x40, 0x40),
            Color::Gray60 => (0x60, 0x60, 0x60),
            Color::Gray99 => (0x99, 0x99, 0x99),
            Color::GrayAa => (0xaa, 0xaa, 0xaa),
        }
    }

    pub open spec fn spec_rgb(self) -> (u8, u8, u8) {
        match self {
            Color::White => (0xff, 0xff, 0xff),
            Color::Blue => (0x3e, 0xbc, 0xe6),
            Color::Magenta => (0xf5, 0x12, 0x81),
            Color::Orange => (0xe6, 0xab, 0x3e),
            Color::Red => (0xff, 0x00, 0x0b),
            Color::Purple => (0x89, 0x1f, 0xff),
            Color::Green => (0x02, 0xed, 0x6e),
            Color::Gray10 => (0x10, 0x10, 0x10),
            Color::Gray20 => (0x20, 0x20, 0x20),
            Color::Gray30 => (0x30, 0x30, 0x30),
            Color::Gray35 => (0x35, 0x35, 0x35),
            Color::Gray40 => (0x40, 0x40, 0x40),
            Color::Gray60 => (0x60, 0x60, 0x60),
            Color::Gray99 => (0x99, 0x99, 0x99),
            Color::GrayAa => (0xaa, 0xaa, 0xaa),
        }
    }
}

/// A color scheme assigns a palette entry to each semantic role.
pub trait ColorScheme {
    fn brackets() -> Color;

    fn delimiter() -> Color;

    fn comment() -> Color;

    fn item() -> Color;

    fn spacing() -> Color;

    fn known() -> Color;

    fn root() -> Color;

    fn annotation() -> Color;

    fn invalid() -> Color;

    fn special() -> Color;

    fn expr() -> Color;

    fn opcode() -> Color;

    fn register() -> Color;

    fn immediate() -> Color;

    fn attribute() -> Color;

    fn segment() -> Color;
}

/// The IBM inspired color scheme.
pub struct IBM;

impl ColorScheme for IBM {
    fn brackets() -> (c: Color)
        ensures
            c == Color::Gray60,
    {
        Color::Gray60
    }

    fn delimiter() -> (c: Color)
        ensures
            c == Color::Gray40,
    {
        Color::Gray40
    }

    fn comment() -> (c: Color)
        ensures
            c == Color::Gray20,
    {
        Color::Gray20
    }

    fn item() -> (c: Color)
        ensures
            c == Color::Magenta,
    {
        Color::Magenta
    }

    fn spacing() -> (c: Color)
        ensures
            c == Color::White,
    {
        Color::White
    }

    fn known() -> (c: Color)
        ensures
            c == Color::Purple,
    {
        Color::Purple
    }

    fn root() -> (c: Color)
        ensures
            c == Color::Purple,
    {
        Color::Purple
    }

    fn annotation() -> (c: Color)
        ensures
            c == Color::Blue,
    {
        Color::Blue
    }

    fn invalid() -> (c: Color)
        ensures
            c == Color::Red,
    {
        Color::Red
    }

    fn special() -> (c: Color)
        ensures
            c == Color::Red,
    {
        Color::Red
    }

    fn expr() -> (c: Color)
        ensures
            c == Color::Gray99,
    {
        Color::Gray99
    }

    fn opcode() -> (c: Color)
        ensures
            c == Color::White,
    {
        Color::White
    }

    fn register() -> (c: Color)
        ensures
            c == Color::Magenta,
    {
        Color::Magenta
    }

    fn immediate() -> (c: Color)
        ensures
            c == Color::Blue,
    {
        Color::Blue
    }

    fn attribute() -> (c: Color)
        ensures
            c == Color::Gray40,
    {
        Color::Gray40
    }

    fn segment() -> (c: Color)
        ensures
            c == Color::Green,
    {
        Color::Green
    }
}

/// Token text: either owned or borrowed from the program text.
#[derive(Debug)]
pub enum MaybeStatic {
    Dynamic(String),
    Static(&'static str),
}

impl Clone for MaybeStatic {
    fn clone(&self) -> (r: MaybeStatic)
        ensures
            r@ == self@,
    {
        match self {
            MaybeStatic::Dynamic(s) => MaybeStatic::Dynamic(s.clone()),
            MaybeStatic::Static(s) => MaybeStatic::Static(s),
        }
    }
}

impl View for MaybeStatic {
    type V = Seq<char>;

    open spec fn view(&self) -> Seq<char> {
        match self {
            MaybeStatic::Dynamic(s) => s@,
            MaybeStatic::Static(s) => s@,
        }
    }
}

impl MaybeStatic {
    pub fn as_str(&self) -> (r: &str)
        ensures
            r@ == self@,
    {
        match self {
            MaybeStatic::Dynamic(s) => s.as_str(),
            MaybeStatic::Static(s) => s,
        }
    }
}

/// The abstract value of a token: its text and its color.
pub struct TokenView {
    pub text: Seq<char>,
    pub color: Color,
}

/// One colored piece of text.
#[derive(Debug)]
pub struct Token {
    pub text: MaybeStatic,
    pub color: Color,
}

impl Clone for Token {
    fn clone(&self) -> (r: Token)
        ensures
            r@ == self@,
    {
        Token { text: self.text.clone(), color: self.color }
    }
}

impl View for Token {
    type V = TokenView;

    open spec fn view(&self) -> TokenView {
        TokenView { text: self.text@, color: self.color }
    }
}

/// The abstract value of a borrowed token: text only, as the original
/// equality on tokens ignores the color.
impl Token {
    pub fn from_str(text: &'static str, color: Color) -> (t: Token)
        ensures
            t@.text == text@,
            t@.color == color,
    {
        Token { text: MaybeStatic::Static(text), color }
    }

    pub fn from_string(text: String, color: Color) -> (t: Token)
        ensures
            t@.text == text@,
            t@.color == color,
    {
        Token { text: MaybeStatic::Dynamic(text), color }
    }
}

impl PartialEq for Token {
    /// Tokens compare by text alone; the color is display metadata.
    fn eq(&self, other: &Self) -> (r: bool) {
        let a = self.text.as_str().to_owned();
        let b = other.text.as_str().to_owned();
        a == b
    }
}

impl vstd::std_specs::cmp::PartialEqSpecImpl for Token {
    open spec fn obeys_eq_spec() -> bool {
        true
    }

    open spec fn eq_spec(&self, other: &Self) -> bool {
        self.text@ == other.text@
    }
}

/// The text of a token sequence, concatenated in order.
pub open spec fn concat_text(tokens: Seq<TokenView>) -> Seq<char>
    decreases tokens.len(),
{
    if tokens.len() == 0 {
        Seq::empty()
    } else {
        tokens[0].text + concat_text(tokens.drop_first())
    }
}

/// An ordered sequence of colored tokens: the rendering contract the
/// presentation layer depends on.
#[derive(Debug)]
pub struct TokenStream {
    pub inner: Vec<Token>,
}

impl View for TokenStream {
    type V = Seq<TokenView>;

    open spec fn view(&self) -> Seq<TokenView> {
        Seq::new(self.inner@.len(), |i: int| self.inner@[i]@)
    }
}

impl TokenStream {
    pub fn new() -> (s: TokenStream)
        ensures
            s@ == Seq::<TokenView>::empty(),
    {
        let s = TokenStream { inner: Vec::new() };
        proof {
            assert(s@ =~= Seq::<TokenView>::empty());
        }
        s
    }

    pub fn push_token(&mut self, token: Token)
        ensures
            final(self)@ == old(self)@.push(token@),
    {
        let ghost t = token@;
        self.inner.push(token);
        proof {
            assert(final(self)@ =~= old(self)@.push(t));
        }
    }

    pub fn push(&mut self, text: &'static str, color: Color)
        ensures
            final(self)@ == old(self)@.push(TokenView { text: text@, color }),
    {
        self.push_token(Token::from_str(text, color));
    }

    pub fn push_owned(&mut self, text: String, color: Color)
        ensures
            final(self)@ == old(self)@.push(TokenView { text: text@, color }),
    {
        let ghost t = text@;
        self.push_token(Token::from_string(text, color));
    }

    pub fn pop(&mut self)
        ensures
            old(self)@.len() > 0 ==> final(self)@ == old(self)@.drop_last(),
            old(self)@.len() == 0 ==> final(self)@ == old(self)@,
    {
        let popped = self.inner.pop();
        proof {
            if old(self)@.len() > 0 {
                assert(final(self)@ =~= old(self)@.drop_last());
            } else {
                assert(final(self)@ =~= old(self)@);
            }
        }
    }

    pub fn clear(&mut self)
        ensures
            final(self)@ == Seq::<TokenView>::empty(),
    {
        self.inner.clear();
        proof {
            assert(final(self)@ =~= Seq::<TokenView>::empty());
        }
    }

    pub fn len(&self) -> (n: usize)
        ensures
            n == self@.len(),
    {
        self.inner.len()
    }

    /// Appends clones of the given tokens, in order.
    pub fn extend_tokens(&mut self, tokens: &[Token])
        ensures
            final(self)@ == old(self)@ + Seq::new(tokens@.len(), |i: int| tokens@[i]@),
    {
        let mut i: usize = 0;
        proof {
            assert(old(self)@ + Seq::new(0nat, |k: int| tokens@[k]@) =~= old(self)@);
        }
        while i < tokens.len()
            invariant
                i <= tokens@.len(),
                self@ == old(self)@ + Seq::new(i as nat, |k: int| tokens@[k]@),
            decreases tokens@.len() - i,
        {
            let t = tokens[i].clone();
            self.push_token(t);
            i = i + 1;
            proof {
                assert(self@ =~= old(self)@ + Seq::new(i as nat, |k: int| tokens@[k]@));
            }
        }
        proof {
            assert(Seq::new(tokens@.len() as int as nat, |k: int| tokens@[k]@) =~= Seq::new(
                tokens@.len(),
                |k: int| tokens@[k]@,
            ));
        }
    }

    /// All token texts joined into one string.
    pub fn text(&self) -> (r: String)
        ensures
            r@ == concat_text(self@),
    {
        let mut out = String::new();
        let mut i: usize = 0;
        proof {
            assert(concat_text(self@.subrange(0, 0)) =~= Seq::<char>::empty());
        }
        while i < self.inner.len()
            invariant
                i <= self.inner@.len(),
                out@ == concat_text(self@.subrange(0, i as int)),
            decreases self.inner@.len() - i,
        {
            out.append(self.inner[i].text.as_str());
            i = i + 1;
            proof {
                lemma_concat_text_snoc(self@.subrange(0, i as int));
                assert(self@.subrange(0, i as int).drop_last() =~= self@.subrange(
                    0,
                    i as int - 1,
                ));
            }
        }
        proof {
            assert(self@.subrange(0, self@.len() as int) =~= self@);
        }
        out
    }
}

/// Concatenating one more token appends its text.
pub proof fn lemma_concat_text_snoc(tokens: Seq<TokenView>)
    requires
        tokens.len() > 0,
    ensures
        concat_text(tokens) == concat_text(tokens.drop_last()) + tokens.last().text,
    decreases tokens.len(),
{
    if tokens.len() == 1 {
        assert(tokens.drop_last() =~= Seq::<TokenView>::empty());
        assert(concat_text(tokens.drop_first()) =~= Seq::<char>::empty());
        assert(concat_text(tokens) =~= concat_text(tokens.drop_last()) + tokens.last().text);
    } else {
        lemma_concat_text_snoc(tokens.drop_first());
        assert(tokens.drop_first().drop_last() =~= tokens.drop_last().drop_first());
        assert(tokens.drop_first().last() == tokens.last());
        assert(concat_text(tokens) =~= concat_text(tokens.drop_last()) + tokens.last().text);
    }
}

} // verus!
