//! The symbol index: an address-indexed table of functions whose names are
//! recovered from mangling schemes and import metadata.
//!
//! The mangling sub-parsers (legacy Rust, Itanium, v0 Rust, MSVC) are
//! external collaborators: each is a grammar of its own, and the caller
//! hands their verdicts in as values. The cascade that orders them, the
//! fallback, the index construction and every lookup are verified here.

use vstd::prelude::*;

verus! {

use vstd::string::StrSliceExecFns;
use vstd::string::StringExecFns;
use crate::tokens::{concat_text, Color, Token, TokenView};
use crate::text::{is_prefix, is_suffix, str_starts_with, str_ends_with};

/// The abstract value of a demangled name.
pub struct TokenStreamView {
    /// The text the tokens were parsed from (the mangled name).
    pub source: Seq<char>,
    /// The demangled, colorized representation.
    pub tokens: Seq<TokenView>,
}

/// A demangled name: the mangled source text plus colorized tokens.
#[derive(Debug)]
pub struct TokenStream {
    source: String,
    tokens: Vec<Token>,
}

impl View for TokenStream {
    type V = TokenStreamView;

    closed spec fn view(&self) -> TokenStreamView {
        TokenStreamView {
            source: self.source@,
            tokens: Seq::new(self.tokens@.len(), |i: int| self.tokens@[i]@),
        }
    }
}

impl Clone for TokenStream {
    fn clone(&self) -> (r: TokenStream)
        ensures
            r@ == self@,
    {
        let mut tokens: Vec<Token> = Vec::new();
        let mut i: usize = 0;
        while i < self.tokens.len()
            invariant
                i <= self.tokens@.len(),
                tokens@.len() == i,
                forall|j: int| 0 <= j < i ==> tokens@[j]@ == self.tokens@[j]@,
            decreases self.tokens@.len() - i,
        {
            tokens.push(self.tokens[i].clone());
            i = i + 1;
        }
        let r = TokenStream { source: self.source.clone(), tokens };
        proof {
            assert(r@.tokens =~= self@.tokens);
        }
        r
    }
}

/// The view of a token stream holding a single uncolored-name token.
pub open spec fn spec_simple_stream(s: Seq<char>) -> TokenStreamView {
    TokenStreamView { source: s, tokens: seq![TokenView { text: s, color: Color::Magenta }] }
}

impl TokenStream {
    pub fn new(s: &str) -> (r: TokenStream)
        ensures
            r@.source == s@,
            r@.tokens == Seq::<TokenView>::empty(),
    {
        let r = TokenStream { source: s.to_owned(), tokens: Vec::new() };
        proof {
            assert(r@.tokens =~= Seq::<TokenView>::empty());
        }
        r
    }

    /// A stream holding the name itself as its only token.
    pub fn simple(s: &str) -> (r: TokenStream)
        ensures
            r@ == spec_simple_stream(s@),
    {
        let mut tokens: Vec<Token> = Vec::new();
        tokens.push(Token::from_string(s.to_owned(), Color::Magenta));
        let r = TokenStream { source: s.to_owned(), tokens };
        proof {
            assert(r@.tokens =~= spec_simple_stream(s@).tokens);
        }
        r
    }

    /// The text the stream was parsed from.
    pub fn inner(&self) -> (r: &str)
        ensures
            r@ == self@.source,
    {
        self.source.as_str()
    }

    pub fn push(&mut self, text: &'static str, color: Color)
        ensures
            final(self)@.source == old(self)@.source,
            final(self)@.tokens == old(self)@.tokens.push(TokenView { text: text@, color }),
    {
        self.tokens.push(Token::from_str(text, color));
        proof {
            assert(final(self)@.tokens =~= old(self)@.tokens.push(
                TokenView { text: text@, color },
            ));
        }
    }

    pub fn push_string(&mut self, text: String, color: Color)
        ensures
            final(self)@.source == old(self)@.source,
            final(self)@.tokens == old(self)@.tokens.push(TokenView { text: text@, color }),
    {
        let ghost t = text@;
        self.tokens.push(Token::from_string(text, color));
        proof {
            assert(final(self)@.tokens =~= old(self)@.tokens.push(TokenView { text: t, color }));
        }
    }

    pub fn pop(&mut self)
        ensures
            final(self)@.source == old(self)@.source,
            old(self)@.tokens.len() > 0 ==> final(self)@.tokens == old(self)@.tokens.drop_last(),
            old(self)@.tokens.len() == 0 ==> final(self)@.tokens == old(self)@.tokens,
    {
        let popped = self.tokens.pop();
        proof {
            if old(self)@.tokens.len() > 0 {
                assert(final(self)@.tokens =~= old(self)@.tokens.drop_last());
            } else {
                assert(final(self)@.tokens =~= old(self)@.tokens);
            }
        }
    }

    pub fn tokens(&self) -> (r: &[Token])
        ensures
            Seq::new(r@.len(), |i: int| r@[i]@) == self@.tokens,
    {
        let r = self.tokens.as_slice();
        proof {
            assert(Seq::new(r@.len(), |i: int| r@[i]@) =~= self@.tokens);
        }
        r
    }

    /// All token texts joined: the demangled display name.
    pub fn joined(&self) -> (r: String)
        ensures
            r@ == concat_text(self@.tokens),
    {
        let mut out = String::new();
        let mut i: usize = 0;
        proof {
            assert(self@.tokens.subrange(0, 0) =~= Seq::<TokenView>::empty());
        }
        while i < self.tokens.len()
            invariant
                i <= self.tokens@.len(),
                out@ == concat_text(self@.tokens.subrange(0, i as int)),
            decreases self.tokens@.len() - i,
        {
            out.append(self.tokens[i].text.as_str());
            i = i + 1;
            proof {
                crate::tokens::lemma_concat_text_snoc(self@.tokens.subrange(0, i as int));
                assert(self@.tokens.subrange(0, i as int).drop_last() =~= self@.tokens.subrange(
                    0,
                    i as int - 1,
                ));
            }
        }
        proof {
            assert(self@.tokens.subrange(0, self@.tokens.len() as int) =~= self@.tokens);
        }
        out
    }
}

/// The verdicts of the four external mangling sub-parsers on one name,
/// in the order the cascade consults them.
pub struct SchemeAttemptsView {
    pub legacy_rust: Option<TokenStreamView>,
    pub itanium: Option<TokenStreamView>,
    pub rust_v0: Option<TokenStreamView>,
    pub msvc: Option<TokenStreamView>,
}

/// What each external mangling scheme made of a (suffix-stripped) name:
/// `None` where the scheme rejected it.
#[derive(Debug)]
pub struct SchemeAttempts {
    pub legacy_rust: Option<TokenStream>,
    pub itanium: Option<TokenStream>,
    pub rust_v0: Option<TokenStream>,
    pub msvc: Option<TokenStream>,
}

impl View for SchemeAttempts {
    type V = SchemeAttemptsView;

    open spec fn view(&self) -> SchemeAttemptsView {
        SchemeAttemptsView {
            legacy_rust: match self.legacy_rust {
                Some(ref s) => Some(s@),
                None => None,
            },
            itanium: match self.itanium {
                Some(ref s) => Some(s@),
                None => None,
            },
            rust_v0: match self.rust_v0 {
                Some(ref s) => Some(s@),
                None => None,
            },
            msvc: match self.msvc {
                Some(ref s) => Some(s@),
                None => None,
            },
        }
    }
}

impl SchemeAttempts {
    /// No scheme accepted the name.
    pub fn none() -> (r: SchemeAttempts)
        ensures
            r@.legacy_rust is None,
            r@.itanium is None,
            r@.rust_v0 is None,
            r@.msvc is None,
    {
        SchemeAttempts { legacy_rust: None, itanium: None, rust_v0: None, msvc: None }
    }
}

/// The name with one trailing linker decoration (`$got`, `$plt`,
/// `$pltgot`) removed.
pub open spec fn spec_strip_decoration(name: Seq<char>) -> Seq<char> {
    if is_suffix("$got"@, name) {
        name.subrange(0, name.len() - "$got"@.len())
    } else if is_suffix("$plt"@, name) {
        name.subrange(0, name.len() - "$plt"@.len())
    } else if is_suffix("$pltgot"@, name) {
        name.subrange(0, name.len() - "$pltgot"@.len())
    } else {
        name
    }
}

/// Strips one trailing `$got`, `$plt` or `$pltgot` decoration, added by
/// some toolchains for PLT and GOT synthetic symbols.
pub fn strip_decoration(name: &str) -> (r: String)
    ensures
        r@ == spec_strip_decoration(name@),
{
    if str_ends_with(name, "$got") {
        crate::text::strip_suffix(name, "$got")
    } else if str_ends_with(name, "$plt") {
        crate::text::strip_suffix(name, "$plt")
    } else if str_ends_with(name, "$pltgot") {
        crate::text::strip_suffix(name, "$pltgot")
    } else {
        name.to_owned()
    }
}

/// The demangling cascade: the first scheme that accepted the name wins,
/// in the fixed order legacy Rust, Itanium, v0 Rust, MSVC; when every
/// scheme rejected it, the stripped name itself becomes a single token.
pub open spec fn spec_demangle(name: Seq<char>, attempts: SchemeAttemptsView) -> TokenStreamView {
    if attempts.legacy_rust is Some {
        attempts.legacy_rust->0
    } else if attempts.itanium is Some {
        attempts.itanium->0
    } else if attempts.rust_v0 is Some {
        attempts.rust_v0->0
    } else if attempts.msvc is Some {
        attempts.msvc->0
    } else {
        spec_simple_stream(spec_strip_decoration(name))
    }
}

/// Demangles one raw symbol name, given the external schemes' verdicts on
/// its suffix-stripped form. Never fails: an unrecognized name comes back
/// as a single token.
pub fn demangle(name: &str, attempts: &SchemeAttempts) -> (r: TokenStream)
    ensures
        r@ == spec_demangle(name@, attempts@),
{
    if let Some(s) = &attempts.legacy_rust {
        return s.clone();
    }
    if let Some(s) = &attempts.itanium {
        return s.clone();
    }
    if let Some(s) = &attempts.rust_v0 {
        return s.clone();
    }
    if let Some(s) = &attempts.msvc {
        return s.clone();
    }
    let stripped = strip_decoration(name);
    TokenStream::simple(stripped.as_str())
}

/// The anonymous, unresolved function's abstract value.
pub open spec fn spec_default_function() -> FunctionView {
    FunctionView {
        name: TokenStreamView { source: Seq::empty(), tokens: Seq::empty() },
        as_str: Seq::empty(),
        module: None,
        intrinsic: false,
    }
}

/// The abstract value of a function entry.
pub struct FunctionView {
    pub name: TokenStreamView,
    pub as_str: Seq<char>,
    pub module: Option<TokenView>,
    pub intrinsic: bool,
}

/// One named address: a demangled, colorized name, its flat text, an
/// optional module, and whether it is a compiler-generated artifact.
#[derive(Debug)]
pub struct Function {
    name: TokenStream,
    name_as_str: String,
    module: Option<Token>,
    intrinsic: bool,
}

impl View for Function {
    type V = FunctionView;

    closed spec fn view(&self) -> FunctionView {
        FunctionView {
            name: self.name@,
            as_str: self.name_as_str@,
            module: match self.module {
                Some(ref t) => Some(t@),
                None => None,
            },
            intrinsic: self.intrinsic,
        }
    }
}

/// The function a fresh entry holds: not yet labeled, its flat text the
/// concatenation of its token texts.
pub open spec fn spec_function(name: TokenStreamView, module: Option<TokenView>) -> FunctionView {
    FunctionView { name, as_str: concat_text(name.tokens), module, intrinsic: false }
}

impl Function {
    pub fn new(name: TokenStream, module: Option<Token>) -> (r: Function)
        ensures
            r@ == spec_function(name@, match module {
                Some(t) => Some(t@),
                None => None,
            }),
    {
        let name_as_str = name.joined();
        Function { name, name_as_str, module, intrinsic: false }
    }

    /// The demangled name as flat text.
    pub fn as_str(&self) -> (r: &str)
        ensures
            r@ == self@.as_str,
    {
        self.name_as_str.as_str()
    }

    /// The demangled name as colorized tokens.
    pub fn name(&self) -> (r: &[Token])
        ensures
            Seq::new(r@.len(), |i: int| r@[i]@) == self@.name.tokens,
    {
        self.name.tokens()
    }

    pub fn module(&self) -> (r: Option<Token>)
        ensures
            match r {
                Some(t) => self@.module == Some(t@),
                None => self@.module is None,
            },
    {
        match &self.module {
            Some(t) => Some(t.clone()),
            None => None,
        }
    }

    /// Whether the function is an unnamed compiler-generated artifact.
    pub fn intrinsic(&self) -> (r: bool)
        ensures
            r == self@.intrinsic,
    {
        self.intrinsic
    }
}

impl Clone for Function {
    fn clone(&self) -> (r: Function)
        ensures
            r@ == self@,
    {
        Function {
            name: self.name.clone(),
            name_as_str: self.name_as_str.clone(),
            module: match &self.module {
                Some(t) => Some(t.clone()),
                None => None,
            },
            intrinsic: self.intrinsic,
        }
    }
}

impl Default for Function {
    /// The anonymous, unresolved function: an empty name.
    fn default() -> (r: Function)
        ensures
            r@ == spec_default_function(),
    {
        let r = Function {
            name: TokenStream::new(""),
            name_as_str: String::new(),
            module: None,
            intrinsic: false,
        };
        proof {
            reveal_strlit("");
            assert(""@ =~= Seq::<char>::empty());
            assert(r@.name.tokens =~= Seq::<TokenView>::empty());
            assert(r@ == spec_default_function());
        }
        r
    }
}


/// A raw symbol to index: an address, the raw (mangled) name, an optional
/// module token, and the external schemes' verdicts on the stripped name.
#[derive(Debug)]
pub struct SymbolRecord {
    pub addr: usize,
    pub name: String,
    pub module: Option<Token>,
    pub attempts: SchemeAttempts,
}

/// The abstract value of a raw symbol record.
pub struct SymbolRecordView {
    pub addr: usize,
    pub name: Seq<char>,
    pub module: Option<TokenView>,
    pub attempts: SchemeAttemptsView,
}

impl View for SymbolRecord {
    type V = SymbolRecordView;

    open spec fn view(&self) -> SymbolRecordView {
        SymbolRecordView {
            addr: self.addr,
            name: self.name@,
            module: match self.module {
                Some(ref t) => Some(t@),
                None => None,
            },
            attempts: self.attempts@,
        }
    }
}

/// The function a record turns into: its name run through the cascade.
pub open spec fn record_function(r: SymbolRecordView) -> FunctionView {
    spec_function(spec_demangle(r.name, r.attempts), r.module)
}

/// The index entries a record list turns into, in order.
pub open spec fn record_entries(rs: Seq<SymbolRecordView>) -> Seq<(usize, FunctionView)> {
    Seq::new(rs.len(), |i: int| (rs[i].addr, record_function(rs[i])))
}

pub open spec fn records_view(rs: Seq<SymbolRecord>) -> Seq<SymbolRecordView> {
    Seq::new(rs.len(), |i: int| rs[i]@)
}

/// What the debug-information reader handed over: no debug file, its
/// public function symbols, or a present-but-malformed file.
#[derive(Debug)]
pub enum PdbSymbols {
    /// No debug file was referenced, or it could not be read: tolerated.
    Absent,
    /// The debug file's public function symbols, already made absolute.
    Loaded(Vec<SymbolRecord>),
    /// The debug file is present but malformed: fatal for `parse_debug`.
    Malformed,
}

/// Why index construction failed as a whole.
#[derive(Debug, Clone, Copy, PartialEq, Eq, Structural)]
pub enum ParseError {
    /// A present debug-information file could not be parsed.
    DebugInfo,
    /// The image's import metadata could not be walked.
    ImportTable,
}

/// The display name of the entry-point function.
pub open spec fn spec_entry_function() -> FunctionView {
    spec_function(spec_simple_stream("entry"@), None)
}

/// Whether any entry carries this address.
pub open spec fn has_key(s: Seq<(usize, FunctionView)>, addr: usize) -> bool {
    exists|i: int| #![trigger s[i]] 0 <= i < s.len() && s[i].0 == addr
}

/// The first entry carrying this address (meaningful when one exists).
pub open spec fn first_with(s: Seq<(usize, FunctionView)>, addr: usize) -> (usize, FunctionView)
    decreases s.len(),
{
    if s.len() == 0 {
        arbitrary()
    } else if s[0].0 == addr {
        s[0]
    } else {
        first_with(s.drop_first(), addr)
    }
}

/// Addresses strictly increase: sorted, and unique.
pub open spec fn sorted_strict(s: Seq<(usize, FunctionView)>) -> bool {
    forall|i: int, j: int| 0 <= i < j < s.len() ==> s[i].0 < s[j].0
}

pub open spec fn entries_view(v: Seq<(usize, Function)>) -> Seq<(usize, FunctionView)> {
    Seq::new(v.len(), |i: int| (v[i].0, v[i].1@))
}

/// A name matching the fixed set of synthetic prefixes (or empty): a
/// compiler-generated artifact, not a real function.
pub open spec fn spec_synthetic(source: Seq<char>) -> bool {
    ||| source.len() == 0
    ||| is_prefix("GCC_except_table"@, source)
    ||| is_prefix("str."@, source)
    ||| is_prefix(".L"@, source)
    ||| is_prefix("anon."@, source)
}

/// What labeling does to one function: synthetic names are marked
/// intrinsic, the rest is untouched.
pub open spec fn relabeled(f: FunctionView) -> FunctionView {
    FunctionView {
        name: f.name,
        as_str: f.as_str,
        module: f.module,
        intrinsic: f.intrinsic || spec_synthetic(f.name.source),
    }
}

/// How many entries carry a real (non-synthetic) name.
pub open spec fn count_named(s: Seq<(usize, FunctionView)>) -> nat
    decreases s.len(),
{
    if s.len() == 0 {
        0
    } else {
        count_named(s.drop_last()) + if !spec_synthetic(s.last().1.name.source) {
            1nat
        } else {
            0nat
        }
    }
}

proof fn lemma_has_key_take_step(s: Seq<(usize, FunctionView)>, i: int)
    requires
        0 <= i < s.len(),
    ensures
        forall|a: usize| has_key(s.take(i + 1), a) <==> (has_key(s.take(i), a) || s[i].0 == a),
{
    assert forall|a: usize|
        has_key(s.take(i + 1), a) implies (has_key(s.take(i), a) || s[i].0 == a) by {
        let k = choose|k: int|
            #![trigger s.take(i + 1)[k]]
            0 <= k < i + 1 && s.take(i + 1)[k].0 == a;
        if k < i {
            assert(s.take(i)[k].0 == a);
        } else {
            assert(s.take(i + 1)[k] == s[i]);
        }
    }
    assert forall|a: usize|
        has_key(s.take(i), a) || s[i].0 == a implies has_key(s.take(i + 1), a) by {
        if has_key(s.take(i), a) {
            let k = choose|k: int| #![trigger s.take(i)[k]] 0 <= k < i && s.take(i)[k].0 == a;
            assert(s.take(i + 1)[k].0 == a);
        } else {
            assert(s.take(i + 1)[i].0 == a);
        }
    }
}

proof fn lemma_first_with_at(s: Seq<(usize, FunctionView)>, i: int)
    requires
        0 <= i < s.len(),
        forall|k: int| 0 <= k < i ==> s[k].0 != s[i].0,
    ensures
        first_with(s, s[i].0) == s[i],
    decreases i,
{
    if i == 0 {
    } else {
        assert(s[0].0 != s[i].0);
        assert forall|k: int| 0 <= k < i - 1 implies #[trigger] s.drop_first()[k].0
            != s.drop_first()[i - 1].0 by {
            assert(s.drop_first()[k] == s[k + 1]);
        }
        lemma_first_with_at(s.drop_first(), i - 1);
        assert(s.drop_first()[i - 1] == s[i]);
    }
}

/// The sorted, address-unique symbol index.
#[derive(Debug)]
pub struct Index {
    tree: Vec<(usize, Function)>,
    named_len: usize,
}

impl View for Index {
    type V = Seq<(usize, FunctionView)>;

    closed spec fn view(&self) -> Seq<(usize, FunctionView)> {
        entries_view(self.tree@)
    }
}

impl Index {
    /// How many real (named) functions the labeling pass counted.
    pub closed spec fn spec_named_len(&self) -> usize {
        self.named_len
    }

    pub fn new() -> (r: Index)
        ensures
            r@ == Seq::<(usize, FunctionView)>::empty(),
            r.spec_named_len() == 0,
    {
        let r = Index { tree: Vec::new(), named_len: 0 };
        proof {
            assert(r@ =~= Seq::<(usize, FunctionView)>::empty());
        }
        r
    }

    /// Appends one entry; the index is re-sorted by the parse passes.
    pub fn insert(&mut self, addr: usize, function: Function)
        ensures
            final(self)@ == old(self)@.push((addr, function@)),
            final(self).spec_named_len() == old(self).spec_named_len(),
    {
        let ghost f = function@;
        self.tree.push((addr, function));
        proof {
            assert(final(self)@ =~= old(self)@.push((addr, f)));
        }
    }

    pub fn is_empty(&self) -> (r: bool)
        ensures
            r == (self@.len() == 0),
    {
        self.tree.is_empty()
    }

    pub fn len(&self) -> (r: usize)
        ensures
            r == self@.len(),
    {
        self.tree.len()
    }

    pub fn named_len(&self) -> (r: usize)
        ensures
            r == self.spec_named_len(),
    {
        self.named_len
    }

    /// The entries, sorted by address once a parse pass has run.
    pub fn iter(&self) -> (r: &Vec<(usize, Function)>)
        ensures
            entries_view(r@) == self@,
    {
        &self.tree
    }

    /// The indexed functions, in address order.
    pub fn symbols(&self) -> (r: Vec<Function>)
        ensures
            r@.len() == self@.len(),
            forall|i: int| 0 <= i < r@.len() ==> r@[i]@ == self@[i].1,
    {
        let mut out: Vec<Function> = Vec::new();
        let mut i: usize = 0;
        while i < self.tree.len()
            invariant
                i <= self.tree@.len(),
                out@.len() == i,
                forall|j: int| 0 <= j < i ==> out@[j]@ == entries_view(self.tree@)[j].1,
            decreases self.tree@.len() - i,
        {
            out.push(self.tree[i].1.clone());
            i = i + 1;
        }
        out
    }

    /// Exact-address lookup by binary search; the index must have been
    /// sorted by a parse pass.
    pub fn get_by_addr(&self, addr: usize) -> (r: Option<&Function>)
        requires
            sorted_strict(self@),
        ensures
            match r {
                Some(f) => has_key(self@, addr) && f@ == first_with(self@, addr).1,
                None => !has_key(self@, addr),
            },
    {
        let mut lo: usize = 0;
        let mut hi: usize = self.tree.len();
        while lo < hi
            invariant
                lo <= hi <= self.tree@.len(),
                sorted_strict(self@),
                forall|i: int| 0 <= i < lo ==> self@[i].0 < addr,
                forall|i: int| hi <= i < self@.len() ==> self@[i].0 > addr,
            decreases hi - lo,
        {
            let mid = lo + (hi - lo) / 2;
            let key = self.tree[mid].0;
            if key == addr {
                proof {
                    lemma_first_with_at(self@, mid as int);
                }
                return Some(&self.tree[mid].1);
            } else if key < addr {
                proof {
                    assert forall|i: int| 0 <= i < mid + 1 implies self@[i].0 < addr by {
                        if i < mid {
                            assert(self@[i].0 < self@[mid as int].0);
                        }
                    }
                }
                lo = mid + 1;
            } else {
                proof {
                    assert forall|i: int| mid <= i < self@.len() implies self@[i].0 > addr by {
                        if i > mid {
                            assert(self@[mid as int].0 < self@[i].0);
                        }
                    }
                }
                hi = mid;
            }
        }
        proof {
            assert forall|i: int| 0 <= i < self@.len() implies self@[i].0 != addr by {
                if i < lo {
                } else {
                    assert(self@[i].0 > addr);
                }
            }
        }
        None
    }

    /// The first entry, in index order, whose flat name is `n`.
    pub open spec fn first_by_name(s: Seq<(usize, FunctionView)>, n: Seq<char>) -> Option<
        (usize, FunctionView),
    >
        decreases s.len(),
    {
        if s.len() == 0 {
            None
        } else if s[0].1.as_str == n {
            Some(s[0])
        } else {
            Self::first_by_name(s.drop_first(), n)
        }
    }

    /// Name lookup by linear scan: the first entry whose flat demangled
    /// name equals `name`.
    pub fn get_by_name(&self, name: &str) -> (r: Option<(usize, Function)>)
        ensures
            match r {
                Some(p) => Index::first_by_name(self@, name@) == Some((p.0, p.1@)),
                None => Index::first_by_name(self@, name@) is None,
            },
    {
        let name_owned = name.to_owned();
        let mut i: usize = 0;
        proof {
            assert(self@.skip(0) =~= self@);
        }
        while i < self.tree.len()
            invariant
                i <= self.tree@.len(),
                name_owned@ == name@,
                Index::first_by_name(self@, name@) == Index::first_by_name(
                    self@.skip(i as int),
                    name@,
                ),
            decreases self.tree@.len() - i,
        {
            let entry_name = self.tree[i].1.name_as_str.clone();
            proof {
                assert(self@[i as int].1.as_str == entry_name@);
                assert(self@.skip(i as int)[0] == self@[i as int]);
            }
            if entry_name == name_owned {
                let f = self.tree[i].1.clone();
                let a = self.tree[i].0;
                proof {
                    assert(self@[i as int] == (a, f@));
                }
                return Some((a, f));
            }
            i = i + 1;
            proof {
                assert(self@.skip(i as int - 1).drop_first() =~= self@.skip(i as int));
            }
        }
        proof {
            assert(self@.skip(self@.len() as int).len() == 0);
        }
        None
    }

    /// Re-sorts the entries by address and keeps, for every address, the
    /// first entry that was inserted for it.
    #[verifier::rlimit(60)]
    #[verifier::spinoff_prover]
    fn rebuild_sorted(&mut self)
        ensures
            sorted_strict(final(self)@),
            forall|a: usize| has_key(final(self)@, a) <==> has_key(old(self)@, a),
            forall|k: int|
                0 <= k < final(self)@.len() ==> final(self)@[k] == first_with(
                    old(self)@,
                    final(self)@[k].0,
                ),
            final(self).spec_named_len() == old(self).spec_named_len(),
    {
        let ghost orig = self@;
        let n = self.tree.len();
        let mut out: Vec<(usize, Function)> = Vec::new();
        let mut i: usize = 0;
        proof {
            assert(entries_view(out@) =~= Seq::<(usize, FunctionView)>::empty());
            assert(orig.take(0) =~= Seq::<(usize, FunctionView)>::empty());
        }
        while i < n
            invariant
                i <= n,
                n == self.tree@.len(),
                orig == entries_view(self.tree@),
                sorted_strict(entries_view(out@)),
                forall|a: usize|
                    has_key(entries_view(out@), a) <==> has_key(orig.take(i as int), a),
                forall|k: int|
                    0 <= k < out@.len() ==> entries_view(out@)[k] == first_with(
                        orig,
                        entries_view(out@)[k].0,
                    ),
            decreases n - i,
        {
            let ghost out_pre = entries_view(out@);
            let addr = self.tree[i].0;
            let mut found = false;
            let mut j: usize = 0;
            while j < out.len()
                invariant
                    j <= out@.len(),
                    found <==> exists|k: int| #![trigger entries_view(out@)[k]] 0 <= k < j && entries_view(out@)[k].0 == addr,
                    out_pre == entries_view(out@),
                decreases out@.len() - j,
            {
                if out[j].0 == addr {
                    found = true;
                    proof {
                        assert(entries_view(out@)[j as int].0 == addr);
                    }
                }
                j = j + 1;
            }
            if !found {
                proof {
                    assert(!has_key(out_pre, addr));
                    assert forall|k: int| 0 <= k < i implies orig[k].0 != addr by {
                        if orig[k].0 == addr {
                            assert(orig.take(i as int)[k].0 == addr);
                            assert(has_key(orig.take(i as int), addr));
                        }
                    }
                    assert(orig[i as int].0 == addr);
                    lemma_first_with_at(orig, i as int);
                }
                let mut pos: usize = 0;
                while pos < out.len() && out[pos].0 < addr
                    invariant
                        pos <= out@.len(),
                        out_pre == entries_view(out@),
                        forall|k: int| 0 <= k < pos ==> entries_view(out@)[k].0 < addr,
                    decreases out@.len() - pos,
                {
                    pos = pos + 1;
                }
                proof {
                    assert forall|k: int| pos <= k < out_pre.len() implies out_pre[k].0
                        > addr by {
                        if out_pre[k].0 == addr {
                            assert(has_key(out_pre, addr));
                        }
                        if k > pos {
                            assert(out_pre[pos as int].0 <= out_pre[k].0);
                        }
                    }
                }
                let ghost e = (addr, orig[i as int].1);
                let func = self.tree[i].1.clone();
                out.insert(pos, (addr, func));
                proof {
                    assert(entries_view(out@) =~= out_pre.insert(pos as int, e));
                    out_pre.insert_ensures(pos as int, e);
                    let out_now = entries_view(out@);
                    assert forall|a: usize| has_key(out_now, a) implies (has_key(out_pre, a) || a
                        == addr) by {
                        let k = choose|k: int| #![trigger out_now[k]] 0 <= k < out_now.len() && out_now[k].0 == a;
                        if k < pos {
                            assert(out_pre[k].0 == a);
                        } else if k > pos {
                            assert(out_pre[k - 1].0 == a);
                        }
                    }
                    assert forall|a: usize| has_key(out_pre, a) implies has_key(out_now, a) by {
                        let k = choose|k: int| #![trigger out_pre[k]] 0 <= k < out_pre.len() && out_pre[k].0 == a;
                        if k < pos {
                            assert(out_now[k].0 == a);
                        } else {
                            assert(out_now[k + 1].0 == a);
                        }
                    }
                    assert(out_now[pos as int].0 == addr);
                    // sortedness of the extended run
                    assert forall|x: int, y: int| 0 <= x < y < out_now.len() implies out_now[x].0
                        < out_now[y].0 by {
                        if x < pos {
                            assert(out_now[x] == out_pre[x]);
                        }
                        if y < pos {
                            assert(out_now[y] == out_pre[y]);
                        }
                        if x > pos {
                            assert(out_now[x] == out_pre[x - 1]);
                        }
                        if y > pos {
                            assert(out_now[y] == out_pre[y - 1]);
                        }
                    }
                    // every element still maps to the first occurrence
                    assert forall|k: int| 0 <= k < out_now.len() implies out_now[k] == first_with(
                        orig,
                        out_now[k].0,
                    ) by {
                        if k < pos {
                            assert(out_now[k] == out_pre[k]);
                        } else if k > pos {
                            assert(out_now[k] == out_pre[k - 1]);
                        }
                    }
                }
            } else {
                proof {
                    assert(has_key(out_pre, addr));
                }
            }
            i = i + 1;
            proof {
                let out_now = entries_view(out@);
                assert forall|a: usize| has_key(out_now, a) <==> has_key(
                    orig.take(i as int),
                    a,
                ) by {
                    lemma_has_key_take_step(orig, i as int - 1);
                    if !found {
                        assert(has_key(out_now, a) <==> (has_key(out_pre, a) || a == addr));
                    } else {
                        assert(out_now == out_pre);
                        if a == addr {
                            assert(has_key(out_pre, a));
                        }
                    }
                }
            }
        }
        proof {
            assert(orig.take(n as int) =~= orig);
        }
        self.tree = out;
    }

    /// Builds the index from the image's symbols: the native and debug
    /// records are demangled and inserted, the entry point gains its fixed
    /// "entry" name, and the whole set is sorted by address, keeping the
    /// first entry inserted for each address. A present-but-malformed
    /// debug file fails the pass and leaves the index untouched; an absent
    /// one is tolerated.
    pub fn parse_debug(
        &mut self,
        native: &Vec<SymbolRecord>,
        pdb: &PdbSymbols,
        entrypoint: usize,
    ) -> (r: Result<(), ParseError>)
        ensures
            match r {
                Err(e) => {
                    &&& e == ParseError::DebugInfo
                    &&& pdb is Malformed
                    &&& final(self)@ == old(self)@
                    &&& final(self).spec_named_len() == old(self).spec_named_len()
                },
                Ok(()) => {
                    let pdb_records = match pdb {
                        PdbSymbols::Loaded(rs) => records_view(rs@),
                        _ => Seq::empty(),
                    };
                    let inserted = old(self)@ + record_entries(records_view(native@))
                        + record_entries(pdb_records) + seq![
                        (entrypoint, spec_entry_function()),
                    ];
                    &&& !(pdb is Malformed)
                    &&& sorted_strict(final(self)@)
                    &&& (forall|a: usize| has_key(final(self)@, a) <==> has_key(inserted, a))
                    &&& (forall|k: int|
                        0 <= k < final(self)@.len() ==> final(self)@[k] == first_with(
                            inserted,
                            final(self)@[k].0,
                        ))
                    &&& final(self).spec_named_len() == old(self).spec_named_len()
                },
            },
    {
        if let PdbSymbols::Malformed = pdb {
            return Err(ParseError::DebugInfo);
        }
        self.insert_records(native);
        if let PdbSymbols::Loaded(rs) = pdb {
            self.insert_records(rs);
        }
        let entry_func = Function::new(TokenStream::simple("entry"), None);
        self.insert(entrypoint, entry_func);
        proof {
            let pdb_records = match pdb {
                PdbSymbols::Loaded(rs) => records_view(rs@),
                _ => Seq::<SymbolRecordView>::empty(),
            };
            if !(pdb is Loaded) {
                assert(record_entries(pdb_records) =~= Seq::<(usize, FunctionView)>::empty());
                assert(old(self)@ + record_entries(records_view(native@)) =~= old(self)@
                    + record_entries(records_view(native@)) + record_entries(pdb_records));
            }
            assert(self@ =~= old(self)@ + record_entries(records_view(native@)) + record_entries(
                pdb_records,
            ) + seq![(entrypoint, spec_entry_function())]);
        }
        self.rebuild_sorted();
        Ok(())
    }

    /// Appends the import records (already resolved to addresses) and
    /// re-sorts the index, keeping the first entry per address, so that
    /// symbols found by `parse_debug` win over imports at one address.
    pub fn parse_imports(&mut self, imports: &Vec<SymbolRecord>)
        ensures
            ({
                let inserted = old(self)@ + record_entries(records_view(imports@));
                &&& sorted_strict(final(self)@)
                &&& (forall|a: usize| has_key(final(self)@, a) <==> has_key(inserted, a))
                &&& (forall|k: int|
                    0 <= k < final(self)@.len() ==> final(self)@[k] == first_with(
                        inserted,
                        final(self)@[k].0,
                    ))
                &&& final(self).spec_named_len() == old(self).spec_named_len()
            }),
    {
        self.insert_records(imports);
        self.rebuild_sorted();
    }

    /// Demangles and appends every record, in order.
    fn insert_records(&mut self, records: &Vec<SymbolRecord>)
        ensures
            final(self)@ == old(self)@ + record_entries(records_view(records@)),
            final(self).spec_named_len() == old(self).spec_named_len(),
    {
        let mut i: usize = 0;
        proof {
            assert(old(self)@ + record_entries(records_view(records@).take(0)) =~= old(self)@);
        }
        while i < records.len()
            invariant
                i <= records@.len(),
                self@ == old(self)@ + record_entries(records_view(records@).take(i as int)),
                self.spec_named_len() == old(self).spec_named_len(),
            decreases records@.len() - i,
        {
            let record = &records[i];
            let stream = demangle(record.name.as_str(), &record.attempts);
            let module = match &record.module {
                Some(t) => Some(t.clone()),
                None => None,
            };
            let func = Function::new(stream, module);
            self.insert(record.addr, func);
            i = i + 1;
            proof {
                assert(self@ =~= old(self)@ + record_entries(
                    records_view(records@).take(i as int),
                ));
            }
        }
        proof {
            assert(records_view(records@).take(records@.len() as int) =~= records_view(records@));
        }
    }

    /// The labeling pass: marks every function whose name is empty or
    /// carries a synthetic prefix as intrinsic, and counts the rest as
    /// named. Meant to run once, after the parse passes.
    #[verifier::rlimit(60)]
    pub fn label(&mut self)
        requires
            old(self).spec_named_len() + count_named(old(self)@) <= usize::MAX,
        ensures
            final(self)@.len() == old(self)@.len(),
            forall|k: int|
                0 <= k < final(self)@.len() ==> final(self)@[k] == (
                    old(self)@[k].0,
                    relabeled(old(self)@[k].1),
                ),
            final(self).spec_named_len() == old(self).spec_named_len() + count_named(old(self)@),
    {
        let ghost orig = self@;
        let n = self.tree.len();
        let mut out: Vec<(usize, Function)> = Vec::new();
        let mut named: usize = 0;
        let mut i: usize = 0;
        proof {
            assert(count_named(orig.take(0)) == 0);
        }
        while i < n
            invariant
                i <= n,
                n == self.tree@.len(),
                orig == entries_view(self.tree@),
                out@.len() == i,
                named == count_named(orig.take(i as int)),
                self.spec_named_len() == old(self).spec_named_len(),
                count_named(orig.take(i as int)) <= count_named(orig),
                old(self).spec_named_len() + count_named(orig) <= usize::MAX,
                forall|k: int|
                    0 <= k < i ==> entries_view(out@)[k] == (orig[k].0, relabeled(orig[k].1)),
            decreases n - i,
        {
            let entry = &self.tree[i];
            let source = entry.1.name.inner();
            let synthetic = source.is_empty() || str_starts_with(source, "GCC_except_table")
                || str_starts_with(source, "str.") || str_starts_with(source, ".L")
                || str_starts_with(source, "anon.");
            proof {
                assert(synthetic == spec_synthetic(orig[i as int].1.name.source));
                lemma_count_named_step(orig, i as int);
            }
            if !synthetic {
                named = named + 1;
            }
            let func = Function {
                name: entry.1.name.clone(),
                name_as_str: entry.1.name_as_str.clone(),
                module: match &entry.1.module {
                    Some(t) => Some(t.clone()),
                    None => None,
                },
                intrinsic: entry.1.intrinsic || synthetic,
            };
            let addr = entry.0;
            let ghost out_pre = entries_view(out@);
            let ghost fv = func@;
            out.push((addr, func));
            i = i + 1;
            proof {
                assert(entries_view(out@) =~= out_pre.push((addr, fv)));
                assert(fv == relabeled(orig[i as int - 1].1));
            }
        }
        proof {
            assert(orig.take(n as int) =~= orig);
        }
        self.tree = out;
        self.named_len = self.named_len + named;
        proof {
            assert forall|k: int| 0 <= k < final(self)@.len() implies final(self)@[k] == (
                orig[k].0,
                relabeled(orig[k].1),
            ) by {}
        }
    }
}

/// Address lookup after the parse passes returns the function first
/// inserted for that address: the index the passes build is sorted with
/// unique addresses, and each of its entries is the first insertion for
/// its address, so a lookup resolves to exactly that entry.
pub proof fn lemma_lookup_after_build(
    index: Seq<(usize, FunctionView)>,
    inserted: Seq<(usize, FunctionView)>,
    addr: usize,
)
    requires
        sorted_strict(index),
        forall|a: usize| has_key(index, a) <==> has_key(inserted, a),
        forall|k: int| 0 <= k < index.len() ==> index[k] == first_with(inserted, index[k].0),
        has_key(inserted, addr),
    ensures
        has_key(index, addr),
        first_with(index, addr) == first_with(inserted, addr),
{
    assert(has_key(index, addr));
    let k = choose|k: int| #![trigger index[k]] 0 <= k < index.len() && index[k].0 == addr;
    assert forall|j: int| 0 <= j < k implies index[j].0 != index[k as int].0 by {
        assert(index[j].0 < index[k as int].0);
    }
    lemma_first_with_at(index, k);
}

proof fn lemma_first_with_append_left(
    s1: Seq<(usize, FunctionView)>,
    s2: Seq<(usize, FunctionView)>,
    a: usize,
)
    requires
        has_key(s1, a),
    ensures
        has_key(s1 + s2, a),
        first_with(s1 + s2, a) == first_with(s1, a),
    decreases s1.len(),
{
    let w = choose|w: int| #![trigger s1[w]] 0 <= w < s1.len() && s1[w].0 == a;
    assert((s1 + s2)[w] == s1[w]);
    if s1[0].0 == a {
        assert((s1 + s2)[0] == s1[0]);
    } else {
        assert(w > 0);
        assert(s1.drop_first()[w - 1].0 == a);
        lemma_first_with_append_left(s1.drop_first(), s2, a);
        assert((s1 + s2).drop_first() =~= s1.drop_first() + s2);
    }
}

/// The first-seen rule, end to end: build an index by `parse_debug` from
/// an empty one with no debug file, and looking up an address returns the
/// function of the first record inserted for it — later records at the
/// same address, and the entry point, do not displace it.
pub proof fn lemma_parse_debug_first_seen(
    index: Seq<(usize, FunctionView)>,
    records: Seq<SymbolRecordView>,
    entrypoint: usize,
    a: usize,
    i: int,
)
    requires
        ({
            let inserted = record_entries(records) + seq![(entrypoint, spec_entry_function())];
            &&& sorted_strict(index)
            &&& (forall|x: usize| has_key(index, x) <==> has_key(inserted, x))
            &&& (forall|k: int|
                0 <= k < index.len() ==> index[k] == first_with(inserted, index[k].0))
        }),
        0 <= i < records.len(),
        records[i].addr == a,
        forall|k: int| 0 <= k < i ==> (#[trigger] records[k]).addr != a,
    ensures
        has_key(index, a),
        first_with(index, a) == (a, record_function(records[i])),
{
    let entries = record_entries(records);
    let inserted = entries + seq![(entrypoint, spec_entry_function())];
    assert(entries[i] == (a, record_function(records[i])));
    assert forall|k: int| 0 <= k < i implies entries[k].0 != entries[i].0 by {
        assert(records[k].addr != a);
    }
    lemma_first_with_at(entries, i);
    lemma_first_with_append_left(entries, seq![(entrypoint, spec_entry_function())], a);
    lemma_lookup_after_build(index, inserted, a);
}

proof fn lemma_count_named_step(s: Seq<(usize, FunctionView)>, i: int)
    requires
        0 <= i < s.len(),
    ensures
        count_named(s.take(i + 1)) == count_named(s.take(i)) + if !spec_synthetic(
            s[i].1.name.source,
        ) {
            1nat
        } else {
            0nat
        },
        count_named(s.take(i + 1)) <= count_named(s),
    decreases s.len() - i,
{
    assert(s.take(i + 1).drop_last() =~= s.take(i));
    assert(s.take(i + 1).last() == s[i]);
    if i + 1 == s.len() {
        assert(s.take(i + 1) =~= s);
    } else {
        lemma_count_named_step(s, i + 1);
    }
}

} // verus!