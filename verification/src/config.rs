//! Layered configuration: documents whose fields may be left unset, merged
//! right over left, and resolved against built-in defaults.

use vstd::prelude::*;
use crate::strmap::{lists, pairs_of, StrMap};
use crate::text::{chars_of, str_eq};

verus! {

/// `over` where it is set, else `base`.
pub open spec fn pick<T>(over: Option<T>, base: Option<T>) -> Option<T> {
    if over is Some {
        over
    } else {
        base
    }
}

/// The first flag of a precedence chain that is set, else the default.
pub open spec fn first_set(chain: Seq<Option<bool>>, default: bool) -> bool
    decreases chain.len(),
{
    if chain.len() == 0 {
        default
    } else if chain[0] is Some {
        chain[0]->0
    } else {
        first_set(chain.drop_first(), default)
    }
}

/// Which files a walk over a directory tree leaves out.
#[derive(Debug, Clone, PartialEq, Eq)]
pub struct Walk {
    /// Skip hidden files and directories.
    pub ignore_hidden: Option<bool>,
    /// Respect ignore files.
    pub ignore_files: Option<bool>,
    /// Respect .ignore files.
    pub ignore_dot: Option<bool>,
    /// Respect ignore files in vcs directories.
    pub ignore_vcs: Option<bool>,
    /// Respect global ignore files.
    pub ignore_global: Option<bool>,
    /// Respect ignore files in parent directories.
    pub ignore_parent: Option<bool>,
}

impl Default for Walk {
    fn default() -> (walk: Walk)
        ensures
            walk == Walk::unset(),
    {
        Walk {
            ignore_hidden: None,
            ignore_files: None,
            ignore_dot: None,
            ignore_vcs: None,
            ignore_global: None,
            ignore_parent: None,
        }
    }
}

impl Walk {
    /// The document that sets nothing.
    pub open spec fn unset() -> Walk {
        Walk {
            ignore_hidden: None,
            ignore_files: None,
            ignore_dot: None,
            ignore_vcs: None,
            ignore_global: None,
            ignore_parent: None,
        }
    }

    /// `self` with `source` laid over it. A flag that `source` sets wins. Setting
    /// `ignore_files` also clears the four finer flags below it, and setting
    /// `ignore_vcs` clears `ignore_global`, before the finer flags of `source`
    /// itself are taken.
    pub open spec fn merged(self, source: Walk) -> Walk {
        let coarse = source.ignore_files is Some;
        let vcs = source.ignore_vcs is Some;
        Walk {
            ignore_hidden: pick(source.ignore_hidden, self.ignore_hidden),
            ignore_files: pick(source.ignore_files, self.ignore_files),
            ignore_dot: pick(
                source.ignore_dot,
                if coarse {
                    None
                } else {
                    self.ignore_dot
                },
            ),
            ignore_vcs: pick(
                source.ignore_vcs,
                if coarse {
                    None
                } else {
                    self.ignore_vcs
                },
            ),
            ignore_global: pick(
                source.ignore_global,
                if coarse || vcs {
                    None
                } else {
                    self.ignore_global
                },
            ),
            ignore_parent: pick(
                source.ignore_parent,
                if coarse {
                    None
                } else {
                    self.ignore_parent
                },
            ),
        }
    }

    /// Effective `ignore_hidden`.
    pub open spec fn hidden(self) -> bool {
        first_set(seq![self.ignore_hidden], true)
    }

    /// Effective `ignore_dot`.
    pub open spec fn dot(self) -> bool {
        first_set(seq![self.ignore_dot, self.ignore_files], true)
    }

    /// Effective `ignore_vcs`.
    pub open spec fn vcs(self) -> bool {
        first_set(seq![self.ignore_vcs, self.ignore_files], true)
    }

    /// Effective `ignore_global`.
    pub open spec fn global(self) -> bool {
        first_set(seq![self.ignore_global, self.ignore_vcs, self.ignore_files], true)
    }

    /// Effective `ignore_parent`.
    pub open spec fn parent(self) -> bool {
        first_set(seq![self.ignore_parent, self.ignore_files], true)
    }

    /// The document that sets every flag to what it resolves to in `self`, and
    /// the coarse switch to its default where it is unset.
    pub open spec fn all_set(self) -> Walk {
        Walk {
            ignore_hidden: Some(self.hidden()),
            ignore_files: Some(first_set(seq![self.ignore_files], true)),
            ignore_dot: Some(self.dot()),
            ignore_vcs: Some(self.vcs()),
            ignore_global: Some(self.global()),
            ignore_parent: Some(self.parent()),
        }
    }

    /// The document that sets every flag to what it is by default.
    pub fn from_defaults() -> (walk: Walk)
        ensures
            walk == Walk::unset().all_set(),
    {
        proof {
            lemma_first_set_1(None, true);
        }
        let empty = Walk::default();
        Walk {
            ignore_hidden: Some(empty.ignore_hidden()),
            ignore_files: Some(true),
            ignore_dot: Some(empty.ignore_dot()),
            ignore_vcs: Some(empty.ignore_vcs()),
            ignore_global: Some(empty.ignore_global()),
            ignore_parent: Some(empty.ignore_parent()),
        }
    }

    /// Lays `source` over this document.
    pub fn update(&mut self, source: &Walk)
        ensures
            *final(self) == old(self).merged(*source),
    {
        if let Some(value) = source.ignore_hidden {
            self.ignore_hidden = Some(value);
        }
        if let Some(value) = source.ignore_files {
            self.ignore_files = Some(value);
            self.ignore_dot = None;
            self.ignore_vcs = None;
            self.ignore_global = None;
            self.ignore_parent = None;
        }
        if let Some(value) = source.ignore_dot {
            self.ignore_dot = Some(value);
        }
        if let Some(value) = source.ignore_vcs {
            self.ignore_vcs = Some(value);
            self.ignore_global = None;
        }
        if let Some(value) = source.ignore_global {
            self.ignore_global = Some(value);
        }
        if let Some(value) = source.ignore_parent {
            self.ignore_parent = Some(value);
        }
    }

    /// Whether hidden files and directories are skipped.
    pub fn ignore_hidden(&self) -> (flag: bool)
        ensures
            flag == self.hidden(),
    {
        proof {
            lemma_first_set_1(self.ignore_hidden, true);
        }
        resolve(self.ignore_hidden, true)
    }

    /// Whether `.ignore` files are respected.
    pub fn ignore_dot(&self) -> (flag: bool)
        ensures
            flag == self.dot(),
    {
        proof {
            lemma_first_set_2(self.ignore_dot, self.ignore_files, true);
        }
        resolve(self.ignore_dot, resolve(self.ignore_files, true))
    }

    /// Whether ignore files in vcs directories are respected.
    pub fn ignore_vcs(&self) -> (flag: bool)
        ensures
            flag == self.vcs(),
    {
        proof {
            lemma_first_set_2(self.ignore_vcs, self.ignore_files, true);
        }
        resolve(self.ignore_vcs, resolve(self.ignore_files, true))
    }

    /// Whether global ignore files are respected.
    pub fn ignore_global(&self) -> (flag: bool)
        ensures
            flag == self.global(),
    {
        proof {
            lemma_first_set_3(self.ignore_global, self.ignore_vcs, self.ignore_files, true);
        }
        resolve(self.ignore_global, resolve(self.ignore_vcs, resolve(self.ignore_files, true)))
    }

    /// Whether ignore files in parent directories are respected.
    pub fn ignore_parent(&self) -> (flag: bool)
        ensures
            flag == self.parent(),
    {
        proof {
            lemma_first_set_2(self.ignore_parent, self.ignore_files, true);
        }
        resolve(self.ignore_parent, resolve(self.ignore_files, true))
    }
}

/// The flag where it is set, else what the rest of its chain resolves to.
fn resolve(flag: Option<bool>, otherwise: bool) -> (value: bool)
    ensures
        value == (if flag is Some {
            flag->0
        } else {
            otherwise
        }),
{
    match flag {
        Some(value) => value,
        None => otherwise,
    }
}

/// A chain of one flag resolves to it, else to the default.
pub proof fn lemma_first_set_1(a: Option<bool>, default: bool)
    ensures
        first_set(seq![a], default) == (if a is Some {
            a->0
        } else {
            default
        }),
{
    let chain = seq![a];
    assert(chain.drop_first() =~= Seq::empty());
    assert(first_set(chain.drop_first(), default) == default);
}

/// A chain of two flags resolves to the first that is set, else to the default.
pub proof fn lemma_first_set_2(a: Option<bool>, b: Option<bool>, default: bool)
    ensures
        first_set(seq![a, b], default) == (if a is Some {
            a->0
        } else if b is Some {
            b->0
        } else {
            default
        }),
{
    let chain = seq![a, b];
    assert(chain.drop_first() =~= seq![b]);
    lemma_first_set_1(b, default);
}

/// A chain of three flags resolves to the first that is set, else to the default.
pub proof fn lemma_first_set_3(a: Option<bool>, b: Option<bool>, c: Option<bool>, default: bool)
    ensures
        first_set(seq![a, b, c], default) == (if a is Some {
            a->0
        } else if b is Some {
            b->0
        } else if c is Some {
            c->0
        } else {
            default
        }),
{
    let chain = seq![a, b, c];
    assert(chain.drop_first() =~= seq![b, c]);
    lemma_first_set_2(b, c, default);
}

/// A dialect of English that a correction can belong to.
#[derive(Debug, Clone, Copy, PartialEq, Eq, Structural)]
pub enum Category {
    American,
    BritishIse,
    Canadian,
    Australian,
}

/// The dialect that spellings are held to.
#[derive(Debug, Clone, Copy, PartialEq, Eq, Structural)]
pub enum Locale {
    /// Any dialect is accepted.
    En,
    EnUs,
    EnGb,
    EnCa,
    EnAu,
}

impl Default for Locale {
    fn default() -> (locale: Locale)
        ensures
            locale == Locale::En,
    {
        Locale::En
    }
}

impl Locale {
    /// The name under which a locale is written.
    pub open spec fn name(self) -> Seq<char> {
        match self {
            Locale::En => "en"@,
            Locale::EnUs => "en-us"@,
            Locale::EnGb => "en-gb"@,
            Locale::EnCa => "en-ca"@,
            Locale::EnAu => "en-au"@,
        }
    }

    /// The locale that goes by the given name, if there is one.
    pub open spec fn named(text: Seq<char>) -> Option<Locale> {
        if text == "en"@ {
            Some(Locale::En)
        } else if text == "en-us"@ {
            Some(Locale::EnUs)
        } else if text == "en-gb"@ {
            Some(Locale::EnGb)
        } else if text == "en-ca"@ {
            Some(Locale::EnCa)
        } else if text == "en-au"@ {
            Some(Locale::EnAu)
        } else {
            None
        }
    }

    /// The dialect that the locale stands for; none for `En`, which accepts
    /// every dialect.
    pub fn category(self) -> (category: Option<Category>)
        ensures
            category == (match self {
                Locale::En => None,
                Locale::EnUs => Some(Category::American),
                Locale::EnGb => Some(Category::BritishIse),
                Locale::EnCa => Some(Category::Canadian),
                Locale::EnAu => Some(Category::Australian),
            }),
    {
        match self {
            Locale::En => None,
            Locale::EnUs => Some(Category::American),
            Locale::EnGb => Some(Category::BritishIse),
            Locale::EnCa => Some(Category::Canadian),
            Locale::EnAu => Some(Category::Australian),
        }
    }

    /// The names of all locales.
    pub fn variants() -> (names: [&'static str; 5])
        ensures
            names[0]@ == Locale::En.name(),
            names[1]@ == Locale::EnUs.name(),
            names[2]@ == Locale::EnGb.name(),
            names[3]@ == Locale::EnCa.name(),
            names[4]@ == Locale::EnAu.name(),
    {
        ["en", "en-us", "en-gb", "en-ca", "en-au"]
    }

    /// The locale's name.
    pub fn as_str(self) -> (name: &'static str)
        ensures
            name@ == self.name(),
    {
        match self {
            Locale::En => "en",
            Locale::EnUs => "en-us",
            Locale::EnGb => "en-gb",
            Locale::EnCa => "en-ca",
            Locale::EnAu => "en-au",
        }
    }

    /// Reads a locale from its name; any other text is answered with the list
    /// of the names.
    pub fn from_str(s: &str) -> (r: Result<Locale, String>)
        ensures
            match r {
                Ok(locale) => Locale::named(s@) == Some(locale),
                Err(message) => Locale::named(s@) is None && message@
                    == "valid values: en, en-us, en-gb, en-ca, en-au"@,
            },
    {
        if str_eq(s, "en") {
            Ok(Locale::En)
        } else if str_eq(s, "en-us") {
            Ok(Locale::EnUs)
        } else if str_eq(s, "en-gb") {
            Ok(Locale::EnGb)
        } else if str_eq(s, "en-ca") {
            Ok(Locale::EnCa)
        } else if str_eq(s, "en-au") {
            Ok(Locale::EnAu)
        } else {
            Err("valid values: en, en-us, en-gb, en-ca, en-au".to_owned())
        }
    }
}

/// Every locale is read back from its own name.
pub proof fn lemma_locale_round_trip(locale: Locale)
    ensures
        Locale::named(locale.name()) == Some(locale),
{
    reveal_strlit("en");
    reveal_strlit("en-us");
    reveal_strlit("en-gb");
    reveal_strlit("en-ca");
    reveal_strlit("en-au");
    assert("en"@.len() == 2);
    assert("en-us"@[3] == 'u' && "en-us"@[4] == 's');
    assert("en-gb"@[3] == 'g' && "en-gb"@[4] == 'b');
    assert("en-ca"@[3] == 'c' && "en-ca"@[4] == 'a');
    assert("en-au"@[3] == 'a' && "en-au"@[4] == 'u');
}

/// The value where it is set, else the default.
pub open spec fn or_default<T>(value: Option<T>, default: T) -> T {
    if value is Some {
        value->0
    } else {
        default
    }
}

/// What a tokenizer document sets, with its texts as characters.
#[verifier::ext_equal]
pub struct TokenizerSettings {
    pub ignore_hex: Option<bool>,
    pub identifier_leading_digits: Option<bool>,
    pub identifier_leading_chars: Option<Seq<char>>,
    pub identifier_include_digits: Option<bool>,
    pub identifier_include_chars: Option<Seq<char>>,
}

impl TokenizerSettings {
    /// The document that sets nothing.
    pub open spec fn unset() -> TokenizerSettings {
        TokenizerSettings {
            ignore_hex: None,
            identifier_leading_digits: None,
            identifier_leading_chars: None,
            identifier_include_digits: None,
            identifier_include_chars: None,
        }
    }

    /// `self` with `source` laid over it: what `source` sets wins.
    pub open spec fn merged(self, source: TokenizerSettings) -> TokenizerSettings {
        TokenizerSettings {
            ignore_hex: pick(source.ignore_hex, self.ignore_hex),
            identifier_leading_digits: pick(
                source.identifier_leading_digits,
                self.identifier_leading_digits,
            ),
            identifier_leading_chars: pick(
                source.identifier_leading_chars,
                self.identifier_leading_chars,
            ),
            identifier_include_digits: pick(
                source.identifier_include_digits,
                self.identifier_include_digits,
            ),
            identifier_include_chars: pick(
                source.identifier_include_chars,
                self.identifier_include_chars,
            ),
        }
    }

    /// Effective `ignore_hex`.
    pub open spec fn hex(self) -> bool {
        or_default(self.ignore_hex, true)
    }

    /// Effective `identifier_leading_digits`.
    pub open spec fn leading_digits(self) -> bool {
        or_default(self.identifier_leading_digits, false)
    }

    /// Effective `identifier_leading_chars`.
    pub open spec fn leading_chars(self) -> Seq<char> {
        or_default(self.identifier_leading_chars, "_"@)
    }

    /// Effective `identifier_include_digits`.
    pub open spec fn include_digits(self) -> bool {
        or_default(self.identifier_include_digits, true)
    }

    /// Effective `identifier_include_chars`.
    pub open spec fn include_chars(self) -> Seq<char> {
        or_default(self.identifier_include_chars, "_'"@)
    }

    /// The document that sets everything to its default.
    pub open spec fn defaults() -> TokenizerSettings {
        let unset = TokenizerSettings::unset();
        TokenizerSettings {
            ignore_hex: Some(unset.hex()),
            identifier_leading_digits: Some(unset.leading_digits()),
            identifier_leading_chars: Some(unset.leading_chars()),
            identifier_include_digits: Some(unset.include_digits()),
            identifier_include_chars: Some(unset.include_chars()),
        }
    }
}

/// How identifiers are told apart from the text around them.
#[derive(Debug, Clone)]
pub struct TokenizerConfig {
    /// Do not check identifiers that appear to be hexadecimal values.
    pub ignore_hex: Option<bool>,
    /// Allow identifiers to start with digits, in addition to letters.
    pub identifier_leading_digits: Option<bool>,
    /// Allow identifiers to start with one of these characters.
    pub identifier_leading_chars: Option<String>,
    /// Allow identifiers to include digits, in addition to letters.
    pub identifier_include_digits: Option<bool>,
    /// Allow identifiers to include these characters.
    pub identifier_include_chars: Option<String>,
}

impl View for TokenizerConfig {
    type V = TokenizerSettings;

    open spec fn view(&self) -> TokenizerSettings {
        TokenizerSettings {
            ignore_hex: self.ignore_hex,
            identifier_leading_digits: self.identifier_leading_digits,
            identifier_leading_chars: chars_of(self.identifier_leading_chars),
            identifier_include_digits: self.identifier_include_digits,
            identifier_include_chars: chars_of(self.identifier_include_chars),
        }
    }
}

impl Default for TokenizerConfig {
    fn default() -> (config: TokenizerConfig)
        ensures
            config@ == TokenizerSettings::unset(),
    {
        TokenizerConfig {
            ignore_hex: None,
            identifier_leading_digits: None,
            identifier_leading_chars: None,
            identifier_include_digits: None,
            identifier_include_chars: None,
        }
    }
}

impl TokenizerConfig {
    /// The document that sets everything to its default.
    pub fn from_defaults() -> (config: TokenizerConfig)
        ensures
            config@ == TokenizerSettings::defaults(),
    {
        let empty = TokenizerConfig::default();
        TokenizerConfig {
            ignore_hex: Some(empty.ignore_hex()),
            identifier_leading_digits: Some(empty.identifier_leading_digits()),
            identifier_leading_chars: Some(empty.identifier_leading_chars().to_owned()),
            identifier_include_digits: Some(empty.identifier_include_digits()),
            identifier_include_chars: Some(empty.identifier_include_chars().to_owned()),
        }
    }

    /// Lays `source` over this document.
    pub fn update(&mut self, source: &TokenizerConfig)
        ensures
            final(self)@ == old(self)@.merged(source@),
    {
        if let Some(value) = source.ignore_hex {
            self.ignore_hex = Some(value);
        }
        if let Some(value) = source.identifier_leading_digits {
            self.identifier_leading_digits = Some(value);
        }
        if let Some(value) = &source.identifier_leading_chars {
            self.identifier_leading_chars = Some(value.clone());
        }
        if let Some(value) = source.identifier_include_digits {
            self.identifier_include_digits = Some(value);
        }
        if let Some(value) = &source.identifier_include_chars {
            self.identifier_include_chars = Some(value.clone());
        }
    }

    /// Whether identifiers that look like hexadecimal values are left alone.
    pub fn ignore_hex(&self) -> (flag: bool)
        ensures
            flag == self@.hex(),
    {
        resolve(self.ignore_hex, true)
    }

    /// Whether an identifier may start with a digit.
    pub fn identifier_leading_digits(&self) -> (flag: bool)
        ensures
            flag == self@.leading_digits(),
    {
        resolve(self.identifier_leading_digits, false)
    }

    /// The characters, besides letters, that an identifier may start with.
    pub fn identifier_leading_chars(&self) -> (chars: &str)
        ensures
            chars@ == self@.leading_chars(),
    {
        match &self.identifier_leading_chars {
            Some(chars) => chars.as_str(),
            None => "_",
        }
    }

    /// Whether an identifier may hold digits.
    pub fn identifier_include_digits(&self) -> (flag: bool)
        ensures
            flag == self@.include_digits(),
    {
        resolve(self.identifier_include_digits, true)
    }

    /// The characters, besides letters, that an identifier may hold.
    pub fn identifier_include_chars(&self) -> (chars: &str)
        ensures
            chars@ == self@.include_chars(),
    {
        match &self.identifier_include_chars {
            Some(chars) => chars.as_str(),
            None => "_'",
        }
    }
}

/// What a dictionary document sets, with its maps as maps of characters.
#[verifier::ext_equal]
pub struct DictSettings {
    pub locale: Option<Locale>,
    pub extend_identifiers: Map<Seq<char>, Seq<char>>,
    pub extend_words: Map<Seq<char>, Seq<char>>,
}

impl DictSettings {
    /// The document that sets nothing.
    pub open spec fn unset() -> DictSettings {
        DictSettings {
            locale: None,
            extend_identifiers: Map::empty(),
            extend_words: Map::empty(),
        }
    }

    /// `self` with `source` laid over it: the locale of `source` wins where it
    /// is set, and the maps are united, an entry of `source` replacing one of
    /// `self` with the same key.
    pub open spec fn merged(self, source: DictSettings) -> DictSettings {
        DictSettings {
            locale: pick(source.locale, self.locale),
            extend_identifiers: self.extend_identifiers.union_prefer_right(
                source.extend_identifiers,
            ),
            extend_words: self.extend_words.union_prefer_right(source.extend_words),
        }
    }

    /// Effective locale.
    pub open spec fn dialect(self) -> Locale {
        or_default(self.locale, Locale::En)
    }

    /// The document that sets the locale to its default and extends nothing.
    pub open spec fn defaults() -> DictSettings {
        DictSettings {
            locale: Some(DictSettings::unset().dialect()),
            extend_identifiers: Map::empty(),
            extend_words: Map::empty(),
        }
    }
}

/// Which corrections apply, and the user's own on top of the built-in ones.
#[derive(Debug, Clone)]
pub struct DictConfig {
    pub locale: Option<Locale>,
    pub extend_identifiers: StrMap,
    pub extend_words: StrMap,
}

impl View for DictConfig {
    type V = DictSettings;

    open spec fn view(&self) -> DictSettings {
        DictSettings {
            locale: self.locale,
            extend_identifiers: self.extend_identifiers@,
            extend_words: self.extend_words@,
        }
    }
}

impl Default for DictConfig {
    fn default() -> (config: DictConfig)
        ensures
            config@ == DictSettings::unset(),
    {
        DictConfig { locale: None, extend_identifiers: StrMap::new(), extend_words: StrMap::new() }
    }
}

impl DictConfig {
    /// The document that sets the locale to its default and extends nothing.
    pub fn from_defaults() -> (config: DictConfig)
        ensures
            config@ == DictSettings::defaults(),
    {
        let empty = DictConfig::default();
        DictConfig {
            locale: Some(empty.locale()),
            extend_identifiers: StrMap::new(),
            extend_words: StrMap::new(),
        }
    }

    /// Lays `source` over this document.
    pub fn update(&mut self, source: &DictConfig)
        ensures
            final(self)@ == old(self)@.merged(source@),
    {
        if let Some(value) = source.locale {
            self.locale = Some(value);
        }
        self.extend_identifiers.extend(&source.extend_identifiers);
        self.extend_words.extend(&source.extend_words);
    }

    /// The dialect that spellings are held to.
    pub fn locale(&self) -> (locale: Locale)
        ensures
            locale == self@.dialect(),
    {
        match self.locale {
            Some(locale) => locale,
            None => Locale::default(),
        }
    }

    /// The user's corrections of whole identifiers, each once.
    pub fn extend_identifiers(&self) -> (listing: Vec<(&str, &str)>)
        ensures
            lists(pairs_of(listing@), self@.extend_identifiers),
    {
        self.extend_identifiers.entries()
    }

    /// The user's corrections of words, each once.
    pub fn extend_words(&self) -> (listing: Vec<(&str, &str)>)
        ensures
            lists(pairs_of(listing@), self@.extend_words),
    {
        self.extend_words.entries()
    }
}

/// What an engine document sets.
#[verifier::ext_equal]
pub struct EngineSettings {
    pub binary: Option<bool>,
    pub check_filename: Option<bool>,
    pub check_file: Option<bool>,
    pub tokenizer: Option<TokenizerSettings>,
    pub dict: Option<DictSettings>,
}

impl EngineSettings {
    /// The document that sets nothing.
    pub open spec fn unset() -> EngineSettings {
        EngineSettings {
            binary: None,
            check_filename: None,
            check_file: None,
            tokenizer: None,
            dict: None,
        }
    }

    /// `self` with `source` laid over it. A flag that `source` sets wins. Where
    /// `source` has a tokenizer or a dictionary part, it is laid over the part
    /// that `self` has, or over the part that sets nothing.
    pub open spec fn merged(self, source: EngineSettings) -> EngineSettings {
        EngineSettings {
            binary: pick(source.binary, self.binary),
            check_filename: pick(source.check_filename, self.check_filename),
            check_file: pick(source.check_file, self.check_file),
            tokenizer: match source.tokenizer {
                Some(part) => Some(
                    or_default(self.tokenizer, TokenizerSettings::unset()).merged(part),
                ),
                None => self.tokenizer,
            },
            dict: match source.dict {
                Some(part) => Some(or_default(self.dict, DictSettings::unset()).merged(part)),
                None => self.dict,
            },
        }
    }

    /// Effective `binary`.
    pub open spec fn checks_binary(self) -> bool {
        or_default(self.binary, false)
    }

    /// Effective `check_filename`.
    pub open spec fn checks_filename(self) -> bool {
        or_default(self.check_filename, true)
    }

    /// Effective `check_file`.
    pub open spec fn checks_file(self) -> bool {
        or_default(self.check_file, true)
    }

    /// The document that sets everything to its default.
    pub open spec fn defaults() -> EngineSettings {
        let unset = EngineSettings::unset();
        EngineSettings {
            binary: Some(unset.checks_binary()),
            check_filename: Some(unset.checks_filename()),
            check_file: Some(unset.checks_file()),
            tokenizer: Some(TokenizerSettings::defaults()),
            dict: Some(DictSettings::defaults()),
        }
    }
}

/// What is checked, and how.
#[derive(Debug, Clone)]
pub struct EngineConfig {
    /// Check binary files.
    pub binary: Option<bool>,
    /// Verifying spelling in file names.
    pub check_filename: Option<bool>,
    /// Verifying spelling in files.
    pub check_file: Option<bool>,
    pub tokenizer: Option<TokenizerConfig>,
    pub dict: Option<DictConfig>,
}

impl View for EngineConfig {
    type V = EngineSettings;

    open spec fn view(&self) -> EngineSettings {
        EngineSettings {
            binary: self.binary,
            check_filename: self.check_filename,
            check_file: self.check_file,
            tokenizer: match self.tokenizer {
                Some(part) => Some(part@),
                None => None,
            },
            dict: match self.dict {
                Some(part) => Some(part@),
                None => None,
            },
        }
    }
}

impl Default for EngineConfig {
    fn default() -> (config: EngineConfig)
        ensures
            config@ == EngineSettings::unset(),
    {
        EngineConfig {
            binary: None,
            check_filename: None,
            check_file: None,
            tokenizer: None,
            dict: None,
        }
    }
}

impl EngineConfig {
    /// The document that sets everything to its default.
    pub fn from_defaults() -> (config: EngineConfig)
        ensures
            config@ == EngineSettings::defaults(),
    {
        let empty = EngineConfig::default();
        EngineConfig {
            binary: Some(empty.binary()),
            check_filename: Some(empty.check_filename()),
            check_file: Some(empty.check_file()),
            tokenizer: Some(
                match empty.tokenizer {
                    Some(part) => part,
                    None => TokenizerConfig::from_defaults(),
                },
            ),
            dict: Some(
                match empty.dict {
                    Some(part) => part,
                    None => DictConfig::from_defaults(),
                },
            ),
        }
    }

    /// Lays `source` over this document.
    pub fn update(&mut self, source: &EngineConfig)
        ensures
            final(self)@ == old(self)@.merged(source@),
    {
        if let Some(value) = source.binary {
            self.binary = Some(value);
        }
        if let Some(value) = source.check_filename {
            self.check_filename = Some(value);
        }
        if let Some(value) = source.check_file {
            self.check_file = Some(value);
        }
        if let Some(part) = &source.tokenizer {
            let mut tokenizer = match self.tokenizer.take() {
                Some(tokenizer) => tokenizer,
                None => TokenizerConfig::default(),
            };
            tokenizer.update(part);
            self.tokenizer = Some(tokenizer);
        }
        if let Some(part) = &source.dict {
            let mut dict = match self.dict.take() {
                Some(dict) => dict,
                None => DictConfig::default(),
            };
            dict.update(part);
            self.dict = Some(dict);
        }
    }

    /// Whether binary files are checked.
    pub fn binary(&self) -> (flag: bool)
        ensures
            flag == self@.checks_binary(),
    {
        resolve(self.binary, false)
    }

    /// Whether the names of files are checked.
    pub fn check_filename(&self) -> (flag: bool)
        ensures
            flag == self@.checks_filename(),
    {
        resolve(self.check_filename, true)
    }

    /// Whether what files hold is checked.
    pub fn check_file(&self) -> (flag: bool)
        ensures
            flag == self@.checks_file(),
    {
        resolve(self.check_file, true)
    }
}

/// What a whole configuration document sets.
#[verifier::ext_equal]
pub struct ConfigView {
    pub files: Walk,
    pub default: EngineSettings,
}

impl ConfigView {
    /// The document that sets nothing.
    pub open spec fn unset() -> ConfigView {
        ConfigView { files: Walk::unset(), default: EngineSettings::unset() }
    }

    /// `self` with `source` laid over it, part by part.
    pub open spec fn merged(self, source: ConfigView) -> ConfigView {
        ConfigView {
            files: self.files.merged(source.files),
            default: self.default.merged(source.default),
        }
    }
}

/// A configuration document.
#[derive(Debug, Clone)]
pub struct Config {
    pub files: Walk,
    pub default: EngineConfig,
}

impl View for Config {
    type V = ConfigView;

    open spec fn view(&self) -> ConfigView {
        ConfigView { files: self.files, default: self.default@ }
    }
}

impl Default for Config {
    fn default() -> (config: Config)
        ensures
            config@ == ConfigView::unset(),
    {
        Config { files: Walk::default(), default: EngineConfig::default() }
    }
}

impl Config {
    /// The document that sets everything to its default.
    pub fn from_defaults() -> (config: Config)
        ensures
            config@.files == Walk::unset().all_set(),
            config@.default == EngineSettings::defaults(),
    {
        Config { files: Walk::from_defaults(), default: EngineConfig::from_defaults() }
    }

    /// Lays `source` over this document.
    pub fn update(&mut self, source: &Config)
        ensures
            final(self)@ == old(self)@.merged(source@),
    {
        self.files.update(&source.files);
        self.default.update(&source.default);
    }

    /// The names under which a project keeps its configuration, the one that
    /// is looked for first coming first.
    pub fn file_names() -> (names: [&'static str; 3])
        ensures
            names[0]@ == "typos.toml"@,
            names[1]@ == "_typos.toml"@,
            names[2]@ == ".typos.toml"@,
    {
        ["typos.toml", "_typos.toml", ".typos.toml"]
    }
}

/// Index of the first name that was found, given for each name, in order of
/// preference, whether it was.
pub fn first_found(found: &[bool]) -> (at: Option<usize>)
    ensures
        match at {
            Some(i) => i < found@.len() && found@[i as int] && forall|j: int|
                0 <= j < i ==> !found@[j],
            None => forall|j: int| 0 <= j < found@.len() ==> !found@[j],
        },
{
    let mut i: usize = 0;
    while i < found.len()
        invariant
            i <= found.len(),
            forall|j: int| 0 <= j < i ==> !found@[j],
        decreases found.len() - i,
    {
        if found[i] {
            return Some(i);
        }
        i += 1;
    }
    None
}

} // verus!
