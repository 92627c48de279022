//! User settings (`books`, `desktop`, `output_dir`) and the `config set` rules.
use crate::text::chars_of;
use vstd::prelude::*;

verus! {

/// User settings, as stored in the configuration file.
pub struct Config {
    /// Open the finished book in Books.
    pub books: bool,
    /// Write to the desktop; `None` keeps the built-in default (yes).
    pub desktop: Option<bool>,
    /// Directory for finished books; a leading `~` stands for the home directory.
    pub output_dir: Option<String>,
}

/// What a [`Config`] holds, as mathematical values.
pub struct ConfigView {
    pub books: bool,
    pub desktop: Option<bool>,
    pub output_dir: Option<Seq<char>>,
}

impl View for Config {
    type V = ConfigView;

    open spec fn view(&self) -> ConfigView {
        ConfigView {
            books: self.books,
            desktop: self.desktop,
            output_dir: match self.output_dir {
                Some(d) => Some(d@),
                None => None,
            },
        }
    }
}

/// Why `config set` refused a key or value.
#[derive(Debug, PartialEq, Eq, Structural, Clone, Copy)]
pub enum ConfigError {
    /// `books` was given something other than `true` or `false`.
    BooksNotBool,
    /// `desktop` was given something other than `true` or `false`.
    DesktopNotBool,
    /// `output_dir` was given an empty value.
    EmptyOutputDir,
    /// The key is none of `books`, `desktop`, `output_dir`.
    UnknownKey,
}

impl ConfigError {
    /// The message shown to the user.
    pub fn message(&self) -> (r: String)
        ensures
            match self {
                ConfigError::BooksNotBool => r@ == "books 必须是 true 或 false"@,
                ConfigError::DesktopNotBool => r@ == "desktop 必须是 true 或 false"@,
                ConfigError::EmptyOutputDir => r@ == "output_dir 不能为空"@,
                ConfigError::UnknownKey => r@ == "未知配置项；可用：books、desktop、output_dir"@,
            },
    {
        match self {
            ConfigError::BooksNotBool => "books 必须是 true 或 false".to_owned(),
            ConfigError::DesktopNotBool => "desktop 必须是 true 或 false".to_owned(),
            ConfigError::EmptyOutputDir => "output_dir 不能为空".to_owned(),
            ConfigError::UnknownKey => "未知配置项；可用：books、desktop、output_dir".to_owned(),
        }
    }
}

/// `true` or `false` spelled out (`bool::from_str`), or nothing.
pub open spec fn parse_bool(v: Seq<char>) -> Option<bool> {
    if v == seq!['t', 'r', 'u', 'e'] {
        Some(true)
    } else if v == seq!['f', 'a', 'l', 's', 'e'] {
        Some(false)
    } else {
        None
    }
}

/// The settings after `config set key value`, or why it was refused.
pub open spec fn config_after_set(c: ConfigView, key: Seq<char>, value: Seq<char>) -> Result<
    ConfigView,
    ConfigError,
> {
    if key == seq!['b', 'o', 'o', 'k', 's'] {
        match parse_bool(value) {
            Some(b) => Ok(ConfigView { books: b, ..c }),
            None => Err(ConfigError::BooksNotBool),
        }
    } else if key == seq!['d', 'e', 's', 'k', 't', 'o', 'p'] {
        match parse_bool(value) {
            Some(b) => Ok(ConfigView { desktop: Some(b), output_dir: None, ..c }),
            None => Err(ConfigError::DesktopNotBool),
        }
    } else if key == seq!['o', 'u', 't', 'p', 'u', 't', '_', 'd', 'i', 'r'] {
        if value.len() == 0 {
            Err(ConfigError::EmptyOutputDir)
        } else {
            Ok(ConfigView { output_dir: Some(value), desktop: Some(false), ..c })
        }
    } else {
        Err(ConfigError::UnknownKey)
    }
}

fn is_word(v: &Vec<char>, w: &[char]) -> (r: bool)
    ensures
        r == (v@ == w@),
{
    crate::text::same_chars(v.as_slice(), w)
}

/// `true` or `false` spelled out, as a `bool`.
pub fn parse_bool_exec(value: &str) -> (r: Option<bool>)
    ensures
        r == parse_bool(value@),
{
    let v = chars_of(value);
    if is_word(&v, &['t', 'r', 'u', 'e']) {
        Some(true)
    } else if is_word(&v, &['f', 'a', 'l', 's', 'e']) {
        Some(false)
    } else {
        None
    }
}

impl Config {
    /// The built-in settings: Books off, desktop unset, no output directory.
    pub fn new() -> (c: Config)
        ensures
            c@ == (ConfigView { books: false, desktop: None, output_dir: None }),
    {
        Config { books: false, desktop: None, output_dir: None }
    }

    /// `config set key value`: `books` and `desktop` take `true` or `false`;
    /// setting `desktop` forgets `output_dir`, and a non-empty `output_dir`
    /// turns `desktop` off. A refused key or value leaves the settings as they were.
    pub fn set(&mut self, key: &str, value: &str) -> (r: Result<(), ConfigError>)
        ensures
            match config_after_set(old(self)@, key@, value@) {
                Ok(c) => r is Ok && final(self)@ == c,
                Err(e) => r == Err::<(), ConfigError>(e) && final(self)@ == old(self)@,
            },
            key@ == seq!['b', 'o', 'o', 'k', 's'] && r is Ok ==> final(self).books == (value@ == seq![
                't',
                'r',
                'u',
                'e',
            ]) && final(self).desktop == old(self).desktop && final(self)@.output_dir == old(
                self,
            )@.output_dir,
            key@ == seq!['b', 'o', 'o', 'k', 's'] ==> (r is Ok <==> (value@ == seq!['t', 'r', 'u', 'e']
                || value@ == seq!['f', 'a', 'l', 's', 'e'])),
            r is Err ==> final(self)@ == old(self)@,
    {
        let k = chars_of(key);
        if is_word(&k, &['b', 'o', 'o', 'k', 's']) {
            match parse_bool_exec(value) {
                Some(b) => {
                    self.books = b;
                    Ok(())
                },
                None => Err(ConfigError::BooksNotBool),
            }
        } else if is_word(&k, &['d', 'e', 's', 'k', 't', 'o', 'p']) {
            match parse_bool_exec(value) {
                Some(b) => {
                    self.desktop = Some(b);
                    self.output_dir = None;
                    Ok(())
                },
                None => Err(ConfigError::DesktopNotBool),
            }
        } else if is_word(&k, &['o', 'u', 't', 'p', 'u', 't', '_', 'd', 'i', 'r']) {
            if value.is_empty() {
                return Err(ConfigError::EmptyOutputDir);
            }
            self.output_dir = Some(value.to_owned());
            self.desktop = Some(false);
            Ok(())
        } else {
            Err(ConfigError::UnknownKey)
        }
    }
}

/// `config set books v` accepts exactly `true` and `false`, turns Books on
/// or off as `v` says, in either direction, and changes nothing else.
pub proof fn lemma_set_books(c: ConfigView, v: Seq<char>)
    ensures
        config_after_set(c, seq!['b', 'o', 'o', 'k', 's'], v) is Ok <==> (v == seq!['t', 'r', 'u', 'e']
            || v == seq!['f', 'a', 'l', 's', 'e']),
        config_after_set(c, seq!['b', 'o', 'o', 'k', 's'], v) matches Ok(d) ==> d.books == (v
            == seq!['t', 'r', 'u', 'e']) && d.desktop == c.desktop && d.output_dir == c.output_dir,
{
}

/// `config set desktop v` accepts exactly `true` and `false`, sets the
/// desktop choice to `v`, forgets the output directory and keeps Books.
pub proof fn lemma_set_desktop(c: ConfigView, v: Seq<char>)
    ensures
        config_after_set(c, seq!['d', 'e', 's', 'k', 't', 'o', 'p'], v) is Ok <==> (v == seq![
            't',
            'r',
            'u',
            'e',
        ] || v == seq!['f', 'a', 'l', 's', 'e']),
        config_after_set(c, seq!['d', 'e', 's', 'k', 't', 'o', 'p'], v) matches Ok(d) ==> d.desktop
            == Some(v == seq!['t', 'r', 'u', 'e']) && d.output_dir is None && d.books == c.books,
{
}

/// `config set output_dir v` accepts any non-empty `v`, stores it, turns the
/// desktop off and keeps Books.
pub proof fn lemma_set_output_dir(c: ConfigView, v: Seq<char>)
    ensures
        config_after_set(c, seq!['o', 'u', 't', 'p', 'u', 't', '_', 'd', 'i', 'r'], v) is Ok <==> v.len()
            > 0,
        config_after_set(c, seq!['o', 'u', 't', 'p', 'u', 't', '_', 'd', 'i', 'r'], v) matches Ok(d)
            ==> d.output_dir == Some(v) && d.desktop == Some(false) && d.books == c.books,
{
}

} // verus!
