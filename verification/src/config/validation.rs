//! Value types of configuration keys: validation of raw text into typed
//! values, and masking of secrets for display.

use vstd::prelude::*;
use vstd::string::*;
use vstd::utf8::{encode_utf8, is_char_boundary};
use crate::config::keys::{KeyModel, SdkField, ConfigKey};
use crate::text::{string_of_range, 
    append_str, bool_text, chars_of, contains_char, decimal, decimal_string, bool_string, lowercase_of, parse_u32,
    parse_u32_spec, str_eq, to_lowercase,
};
use crate::version::discovery::opt_text;

verus! {

// ───────────────────────── outside calls ─────────────────────────

/// What `url::Url::parse` makes of a text: the scheme of the parsed URL,
/// or none when the text is not an absolute URL.
pub uninterp spec fn url_scheme_of(s: Seq<char>) -> Option<Seq<char>>;

/// Parses a URL and returns its scheme.
///
/// Trusted: calls `url::Url::parse` and, on success, `Url::scheme`; the
/// result is taken to be `url_scheme_of` of the text (the URL standard's
/// parser is not written out here).
#[verifier::external_body]
fn parse_url_scheme(s: &str) -> (r: Option<String>)
    ensures
        opt_text(r) == url_scheme_of(s@),
{
    url::Url::parse(s).ok().map(|u| u.scheme().to_string())
}

/// What compiling `pattern` with `regex_lite::Regex::new` and replacing all
/// its matches in `text` by `rep` gives; none when the pattern does not compile.
pub uninterp spec fn regex_replaced(pattern: Seq<char>, text: Seq<char>, rep: Seq<char>) -> Option<Seq<char>>;

/// The placeholder pattern of URL templates: `{`, one or more characters other than `}`, `}`.
pub const PLACEHOLDER_PATTERN: &'static str = "\\{[^}]+\\}";

/// The position of the first `}` in a text (its length when there is none).
pub open spec fn first_close(s: Seq<char>) -> int
    decreases s.len(),
{
    if s.len() == 0 {
        0
    } else if s[0] == '}' {
        0
    } else {
        1 + first_close(s.drop_first())
    }
}

/// What replacing the matches of `PLACEHOLDER_PATTERN` gives: scanning from
/// the left, a `{` that is followed by at least one character other than
/// `}` and then a `}` starts a placeholder, which is replaced by `rep`; the
/// scan goes on after it.
pub open spec fn placeholders_replaced(text: Seq<char>, rep: Seq<char>) -> Seq<char>
    decreases text.len(),
{
    if text.len() == 0 {
        text
    } else if text[0] == '{' && 1 <= first_close(text.drop_first()) < text.len() - 1 {
        rep + placeholders_replaced(text.skip(first_close(text.drop_first()) + 2), rep)
    } else {
        seq![text[0]] + placeholders_replaced(text.drop_first(), rep)
    }
}

/// Replaces every match of a regular expression.
///
/// Trusted: calls `regex_lite::Regex::new` and `Regex::replace_all`; the
/// result is taken to be `regex_replaced` of the arguments. For the
/// placeholder pattern (valid regex-lite syntax, so it compiles) and a
/// replacement without `$` (which `replace_all` would expand), the result is
/// the leftmost-first replacement that `placeholders_replaced` writes out.
#[verifier::external_body]
fn regex_replace_all(pattern: &str, text: &str, rep: &str) -> (r: Option<String>)
    ensures
        opt_text(r) == regex_replaced(pattern@, text@, rep@),
        pattern@ == PLACEHOLDER_PATTERN@ && !rep@.contains('$') ==> opt_text(r) == Some(placeholders_replaced(text@, rep@)),
{
    regex_lite::Regex::new(pattern).ok().map(|re| re.replace_all(text, rep).into_owned())
}

// ───────────────────────── types ─────────────────────────

/// The type of a configuration value (validation and masking follow it).
#[derive(Debug, Clone, Copy, PartialEq, Eq, Structural)]
pub enum ValueType {
    /// An http, https or socks5 URL.
    Url,
    /// A URL with `{placeholder}`s.
    UrlTemplate,
    /// true/false/1/0/yes/no/on/off, in any case.
    Bool,
    /// An integer in `[min, max]`.
    U32 { min: u32, max: u32 },
    /// A non-empty path.
    Path,
    /// A non-empty secret (masked on display).
    Token,
    /// A non-empty string.
    NonEmptyString,
    /// A string without path separators, possibly empty.
    FreeString,
}

/// A validated value, ready to be stored.
#[derive(Debug)]
pub enum ValidatedValue {
    Url(String),
    Bool(bool),
    U32(u32),
    Path(String),
    Token(String),
    NonEmptyString(String),
    FreeString(String),
}

/// The model of a validated value.
pub enum ValueModel {
    Url(Seq<char>),
    Bool(bool),
    U32(u32),
    Path(Seq<char>),
    Token(Seq<char>),
    NonEmptyString(Seq<char>),
    FreeString(Seq<char>),
}

impl View for ValidatedValue {
    type V = ValueModel;

    open spec fn view(&self) -> ValueModel {
        match self {
            ValidatedValue::Url(s) => ValueModel::Url(s@),
            ValidatedValue::Bool(b) => ValueModel::Bool(*b),
            ValidatedValue::U32(n) => ValueModel::U32(*n),
            ValidatedValue::Path(s) => ValueModel::Path(s@),
            ValidatedValue::Token(s) => ValueModel::Token(s@),
            ValidatedValue::NonEmptyString(s) => ValueModel::NonEmptyString(s@),
            ValidatedValue::FreeString(s) => ValueModel::FreeString(s@),
        }
    }
}

/// The stored text of a value.
pub open spec fn value_text(v: ValueModel) -> Seq<char> {
    match v {
        ValueModel::Url(s) => s,
        ValueModel::Bool(b) => bool_text(b),
        ValueModel::U32(n) => decimal(n as nat),
        ValueModel::Path(s) => s,
        ValueModel::Token(s) => s,
        ValueModel::NonEmptyString(s) => s,
        ValueModel::FreeString(s) => s,
    }
}

impl ValidatedValue {
    /// The value as stored text (`true`/`false`, decimal numbers, the string itself).
    pub fn into_string(self) -> (s: String)
        ensures
            s@ == value_text(self@),
    {
        match self {
            ValidatedValue::Url(s) => s,
            ValidatedValue::Bool(b) => bool_string(b),
            ValidatedValue::U32(n) => decimal_string(n as u64),
            ValidatedValue::Path(s) => s,
            ValidatedValue::Token(s) => s,
            ValidatedValue::NonEmptyString(s) => s,
            ValidatedValue::FreeString(s) => s,
        }
    }

    /// The string a string-holding value holds (not for booleans and numbers).
    pub fn as_str_ref(&self) -> (s: &str)
        requires
            !(self@ is Bool) && !(self@ is U32),
        ensures
            s@ == value_text(self@),
    {
        match self {
            ValidatedValue::Url(s) => s.as_str(),
            ValidatedValue::Path(s) => s.as_str(),
            ValidatedValue::Token(s) => s.as_str(),
            ValidatedValue::NonEmptyString(s) => s.as_str(),
            ValidatedValue::FreeString(s) => s.as_str(),
            ValidatedValue::Bool(_) => "",
            ValidatedValue::U32(_) => "",
        }
    }
}

/// Facts about a key: may it be deleted, its value type, its default (for display).
#[derive(Debug)]
pub struct KeyMeta {
    pub deletable: bool,
    pub value_type: ValueType,
    pub default_desc: String,
}

/// The value type of a key.
pub open spec fn field_type_spec(k: KeyModel) -> ValueType {
    match k {
        KeyModel::SymlinkDir => ValueType::Path,
        KeyModel::NetworkProxy => ValueType::Url,
        KeyModel::NetworkSslVerify => ValueType::Bool,
        KeyModel::NetworkConnectTimeout => ValueType::U32 { min: 1, max: 600 },
        KeyModel::NetworkCacheTtlSecs => ValueType::U32 { min: 0, max: 86400 },
        KeyModel::NetworkGithubToken => ValueType::Token,
        KeyModel::Sdk { field, .. } => match field {
            SdkField::VersionUrl => ValueType::Url,
            SdkField::VersionFallbackUrl => ValueType::Url,
            SdkField::DownloadUrl => ValueType::UrlTemplate,
            SdkField::DownloadFallbackUrl => ValueType::UrlTemplate,
            SdkField::CurrentVersion => ValueType::NonEmptyString,
            SdkField::BinDir => ValueType::FreeString,
        },
        KeyModel::SdkExtraVar { .. } => ValueType::NonEmptyString,
        KeyModel::SdkExtraPath { .. } => ValueType::Path,
    }
}

/// The value type of a key (validation and masking follow it).
pub fn field_type(key: &ConfigKey) -> (t: ValueType)
    ensures
        t == field_type_spec(key@),
{
    match key {
        ConfigKey::SymlinkDir => ValueType::Path,
        ConfigKey::NetworkProxy => ValueType::Url,
        ConfigKey::NetworkSslVerify => ValueType::Bool,
        ConfigKey::NetworkConnectTimeout => ValueType::U32 { min: 1, max: 600 },
        ConfigKey::NetworkCacheTtlSecs => ValueType::U32 { min: 0, max: 86400 },
        ConfigKey::NetworkGithubToken => ValueType::Token,
        ConfigKey::Sdk { field, .. } => match field {
            SdkField::VersionUrl => ValueType::Url,
            SdkField::VersionFallbackUrl => ValueType::Url,
            SdkField::DownloadUrl => ValueType::UrlTemplate,
            SdkField::DownloadFallbackUrl => ValueType::UrlTemplate,
            SdkField::CurrentVersion => ValueType::NonEmptyString,
            SdkField::BinDir => ValueType::FreeString,
        },
        ConfigKey::SdkExtraVar { .. } => ValueType::NonEmptyString,
        ConfigKey::SdkExtraPath { .. } => ValueType::Path,
    }
}

/// Whether a key may be deleted: optional network settings always, optional
/// fields of custom SDKs only (every field of a built-in SDK is kept; the
/// download URL and bin dir are required for every SDK).
pub open spec fn deletable_spec(k: KeyModel, is_builtin: bool) -> bool {
    match k {
        KeyModel::NetworkProxy => true,
        KeyModel::NetworkGithubToken => true,
        KeyModel::Sdk { field, .. } => match field {
            SdkField::DownloadUrl => false,
            SdkField::BinDir => false,
            _ => !is_builtin,
        },
        KeyModel::SdkExtraVar { .. } => !is_builtin,
        KeyModel::SdkExtraPath { .. } => !is_builtin,
        _ => false,
    }
}

/// The default shown for a key.
pub open spec fn default_desc_spec(k: KeyModel, symlink_default: Seq<char>) -> Seq<char> {
    match k {
        KeyModel::SymlinkDir => symlink_default,
        KeyModel::NetworkSslVerify => "true"@,
        KeyModel::NetworkConnectTimeout => "30"@,
        KeyModel::NetworkCacheTtlSecs => "3600"@,
        KeyModel::Sdk { field, .. } => match field {
            SdkField::DownloadUrl => "(required)"@,
            SdkField::BinDir => "(empty = binaries in SDK root dir)"@,
            _ => "(none)"@,
        },
        _ => "(none)"@,
    }
}

/// The default symlink directory setting: empty, which resolves to the
/// `links` directory under the sdkm home.
pub const DEFAULT_SYMLINK_DIR: &'static str = "";

/// The facts about a key, for an SDK that is built in or not.
pub fn key_meta(key: &ConfigKey, is_builtin: bool) -> (m: KeyMeta)
    ensures
        m.deletable == deletable_spec(key@, is_builtin),
        m.value_type == field_type_spec(key@),
        m.default_desc@ == default_desc_spec(key@, DEFAULT_SYMLINK_DIR@),
{
    let sdk_deletable = !is_builtin;
    let (deletable, desc): (bool, &str) = match key {
        ConfigKey::SymlinkDir => (false, DEFAULT_SYMLINK_DIR),
        ConfigKey::NetworkProxy => (true, "(none)"),
        ConfigKey::NetworkSslVerify => (false, "true"),
        ConfigKey::NetworkConnectTimeout => (false, "30"),
        ConfigKey::NetworkCacheTtlSecs => (false, "3600"),
        ConfigKey::NetworkGithubToken => (true, "(none)"),
        ConfigKey::Sdk { field, .. } => match field {
            SdkField::VersionUrl => (sdk_deletable, "(none)"),
            SdkField::VersionFallbackUrl => (sdk_deletable, "(none)"),
            SdkField::DownloadUrl => (false, "(required)"),
            SdkField::DownloadFallbackUrl => (sdk_deletable, "(none)"),
            SdkField::CurrentVersion => (sdk_deletable, "(none)"),
            SdkField::BinDir => (false, "(empty = binaries in SDK root dir)"),
        },
        ConfigKey::SdkExtraVar { .. } => (sdk_deletable, "(none)"),
        ConfigKey::SdkExtraPath { .. } => (sdk_deletable, "(none)"),
    };
    KeyMeta { deletable, value_type: field_type(key), default_desc: String::from_str(desc) }
}

// ───────────────────────── validation ─────────────────────────

/// Why a raw value was refused.
pub enum ValidationError {
    InvalidUrl { raw: String },
    BadScheme { scheme: String },
    InvalidTemplate { raw: String },
    InvalidBool { raw: String },
    InvalidInteger { raw: String },
    OutOfRange { value: u32, min: u32, max: u32 },
    EmptyPath,
    EmptyToken,
    EmptyValue,
    HasSeparator,
}

/// The model of a validation error.
pub enum ValidationErrorModel {
    InvalidUrl(Seq<char>),
    BadScheme(Seq<char>),
    InvalidTemplate(Seq<char>),
    InvalidBool(Seq<char>),
    InvalidInteger(Seq<char>),
    OutOfRange(u32, u32, u32),
    EmptyPath,
    EmptyToken,
    EmptyValue,
    HasSeparator,
}

impl View for ValidationError {
    type V = ValidationErrorModel;

    open spec fn view(&self) -> ValidationErrorModel {
        match self {
            ValidationError::InvalidUrl { raw } => ValidationErrorModel::InvalidUrl(raw@),
            ValidationError::BadScheme { scheme } => ValidationErrorModel::BadScheme(scheme@),
            ValidationError::InvalidTemplate { raw } => ValidationErrorModel::InvalidTemplate(raw@),
            ValidationError::InvalidBool { raw } => ValidationErrorModel::InvalidBool(raw@),
            ValidationError::InvalidInteger { raw } => ValidationErrorModel::InvalidInteger(raw@),
            ValidationError::OutOfRange { value, min, max } => ValidationErrorModel::OutOfRange(*value, *min, *max),
            ValidationError::EmptyPath => ValidationErrorModel::EmptyPath,
            ValidationError::EmptyToken => ValidationErrorModel::EmptyToken,
            ValidationError::EmptyValue => ValidationErrorModel::EmptyValue,
            ValidationError::HasSeparator => ValidationErrorModel::HasSeparator,
        }
    }
}

/// The message of a validation error.
pub open spec fn validation_error_text(e: ValidationErrorModel) -> Seq<char> {
    match e {
        ValidationErrorModel::InvalidUrl(raw) => "Invalid URL: '"@ + raw + "'"@,
        ValidationErrorModel::BadScheme(s) => "Invalid URL scheme '"@ + s + "'. Supported: http, https, socks5"@,
        ValidationErrorModel::InvalidTemplate(raw) => "Invalid URL template: '"@ + raw + "'"@,
        ValidationErrorModel::InvalidBool(raw) => "Invalid boolean value '"@ + raw + "'. Accepted: true/false/1/0/yes/no/on/off"@,
        ValidationErrorModel::InvalidInteger(raw) => "Invalid integer: '"@ + raw + "'"@,
        ValidationErrorModel::OutOfRange(v, lo, hi) => "Value "@ + decimal(v as nat) + " out of range ["@
            + decimal(lo as nat) + ", "@ + decimal(hi as nat) + "]"@,
        ValidationErrorModel::EmptyPath => "Path value cannot be empty"@,
        ValidationErrorModel::EmptyToken => "Token value cannot be empty"@,
        ValidationErrorModel::EmptyValue => "Value cannot be empty"@,
        ValidationErrorModel::HasSeparator => "Value must be a simple directory name, not a path with separators. Use empty string for binaries in SDK root."@,
    }
}

impl ValidationError {
    /// The error message.
    pub fn message(&self) -> (m: String)
        ensures
            m@ == validation_error_text(self@),
    {
        let mut m = String::new();
        match self {
            ValidationError::InvalidUrl { raw } => {
                append_str(&mut m, "Invalid URL: '");
                append_str(&mut m, raw.as_str());
                append_str(&mut m, "'");
            },
            ValidationError::BadScheme { scheme } => {
                append_str(&mut m, "Invalid URL scheme '");
                append_str(&mut m, scheme.as_str());
                append_str(&mut m, "'. Supported: http, https, socks5");
            },
            ValidationError::InvalidTemplate { raw } => {
                append_str(&mut m, "Invalid URL template: '");
                append_str(&mut m, raw.as_str());
                append_str(&mut m, "'");
            },
            ValidationError::InvalidBool { raw } => {
                append_str(&mut m, "Invalid boolean value '");
                append_str(&mut m, raw.as_str());
                append_str(&mut m, "'. Accepted: true/false/1/0/yes/no/on/off");
            },
            ValidationError::InvalidInteger { raw } => {
                append_str(&mut m, "Invalid integer: '");
                append_str(&mut m, raw.as_str());
                append_str(&mut m, "'");
            },
            ValidationError::OutOfRange { value, min, max } => {
                append_str(&mut m, "Value ");
                let v = decimal_string(*value as u64);
                append_str(&mut m, v.as_str());
                append_str(&mut m, " out of range [");
                let lo = decimal_string(*min as u64);
                append_str(&mut m, lo.as_str());
                append_str(&mut m, ", ");
                let hi = decimal_string(*max as u64);
                append_str(&mut m, hi.as_str());
                append_str(&mut m, "]");
            },
            ValidationError::EmptyPath => {
                append_str(&mut m, "Path value cannot be empty");
            },
            ValidationError::EmptyToken => {
                append_str(&mut m, "Token value cannot be empty");
            },
            ValidationError::EmptyValue => {
                append_str(&mut m, "Value cannot be empty");
            },
            ValidationError::HasSeparator => {
                append_str(&mut m, "Value must be a simple directory name, not a path with separators. Use empty string for binaries in SDK root.");
            },
        }
        m
    }
}

/// The words accepted as true.
pub open spec fn is_true_word(w: Seq<char>) -> bool {
    w == "true"@ || w == "1"@ || w == "yes"@ || w == "on"@
}

/// The words accepted as false.
pub open spec fn is_false_word(w: Seq<char>) -> bool {
    w == "false"@ || w == "0"@ || w == "no"@ || w == "off"@
}

/// What validating `raw` as type `ty` gives.
pub open spec fn validate_spec(raw: Seq<char>, ty: ValueType) -> Result<ValueModel, ValidationErrorModel> {
    match ty {
        ValueType::Url => match url_scheme_of(raw) {
            None => Err(ValidationErrorModel::InvalidUrl(raw)),
            Some(sc) => if sc == "http"@ || sc == "https"@ || sc == "socks5"@ {
                Ok(ValueModel::Url(raw))
            } else {
                Err(ValidationErrorModel::BadScheme(sc))
            },
        },
        ValueType::UrlTemplate => if url_scheme_of(placeholders_replaced(raw, "dummy"@)) is Some {
            Ok(ValueModel::Url(raw))
        } else {
            Err(ValidationErrorModel::InvalidTemplate(raw))
        },
        ValueType::Bool => {
            let l = lowercase_of(raw);
            if is_true_word(l) {
                Ok(ValueModel::Bool(true))
            } else if is_false_word(l) {
                Ok(ValueModel::Bool(false))
            } else {
                Err(ValidationErrorModel::InvalidBool(raw))
            }
        },
        ValueType::U32 { min, max } => match parse_u32_spec(raw) {
            None => Err(ValidationErrorModel::InvalidInteger(raw)),
            Some(n) => if n < min || n > max {
                Err(ValidationErrorModel::OutOfRange(n, min, max))
            } else {
                Ok(ValueModel::U32(n))
            },
        },
        ValueType::Path => if raw.len() == 0 { Err(ValidationErrorModel::EmptyPath) } else { Ok(ValueModel::Path(raw)) },
        ValueType::Token => if raw.len() == 0 { Err(ValidationErrorModel::EmptyToken) } else { Ok(ValueModel::Token(raw)) },
        ValueType::NonEmptyString => if raw.len() == 0 {
            Err(ValidationErrorModel::EmptyValue)
        } else {
            Ok(ValueModel::NonEmptyString(raw))
        },
        ValueType::FreeString => if raw.contains('/') || raw.contains('\\') {
            Err(ValidationErrorModel::HasSeparator)
        } else {
            Ok(ValueModel::FreeString(raw))
        },
    }
}

/// The model of a validation result.
pub open spec fn validation_model(r: Result<ValidatedValue, ValidationError>) -> Result<ValueModel, ValidationErrorModel> {
    match r {
        Ok(v) => Ok(v@),
        Err(e) => Err(e@),
    }
}

fn validate_url(raw: &str) -> (r: Result<ValidatedValue, ValidationError>)
    ensures
        validation_model(r) == validate_spec(raw@, ValueType::Url),
{
    match parse_url_scheme(raw) {
        None => Err(ValidationError::InvalidUrl { raw: String::from_str(raw) }),
        Some(sc) => {
            if str_eq(sc.as_str(), "http") || str_eq(sc.as_str(), "https") || str_eq(sc.as_str(), "socks5") {
                Ok(ValidatedValue::Url(String::from_str(raw)))
            } else {
                Err(ValidationError::BadScheme { scheme: sc })
            }
        },
    }
}

/// The template with every `{placeholder}` replaced by `dummy`.
fn replace_placeholders_with_dummy(template: &str) -> (r: String)
    ensures
        r@ == placeholders_replaced(template@, "dummy"@),
{
    proof {
        reveal_strlit("dummy");
        assert(!"dummy"@.contains('$')) by {
            if "dummy"@.contains('$') {
                let i = choose|i: int| 0 <= i < "dummy"@.len() && "dummy"@[i] == '$';
            }
        }
    }
    match regex_replace_all(PLACEHOLDER_PATTERN, template, "dummy") {
        Some(s) => s,
        None => String::new(),
    }
}

fn validate_url_template(raw: &str) -> (r: Result<ValidatedValue, ValidationError>)
    ensures
        validation_model(r) == validate_spec(raw@, ValueType::UrlTemplate),
{
    let dummy = replace_placeholders_with_dummy(raw);
    match parse_url_scheme(dummy.as_str()) {
        Some(_) => Ok(ValidatedValue::Url(String::from_str(raw))),
        None => Err(ValidationError::InvalidTemplate { raw: String::from_str(raw) }),
    }
}

/// Validating as a boolean reads, ignoring case, `true`, `1`, `yes` and `on`
/// as true and `false`, `0`, `no` and `off` as false, and refuses anything
/// else, naming the text given.
pub proof fn lemma_bool_words(raw: Seq<char>)
    ensures
        ({
            let l = lowercase_of(raw);
            l == "true"@ || l == "1"@ || l == "yes"@ || l == "on"@
        }) ==> validate_spec(raw, ValueType::Bool) == Ok::<ValueModel, ValidationErrorModel>(ValueModel::Bool(true)),
        ({
            let l = lowercase_of(raw);
            l == "false"@ || l == "0"@ || l == "no"@ || l == "off"@
        }) ==> validate_spec(raw, ValueType::Bool) == Ok::<ValueModel, ValidationErrorModel>(ValueModel::Bool(false)),
        ({
            let l = lowercase_of(raw);
            !(l == "true"@ || l == "1"@ || l == "yes"@ || l == "on"@ || l == "false"@ || l == "0"@ || l == "no"@ || l == "off"@)
        }) ==> validate_spec(raw, ValueType::Bool) == Err::<ValueModel, ValidationErrorModel>(ValidationErrorModel::InvalidBool(raw)),
{
    reveal_strlit("true");
    reveal_strlit("1");
    reveal_strlit("yes");
    reveal_strlit("on");
    reveal_strlit("false");
    reveal_strlit("0");
    reveal_strlit("no");
    reveal_strlit("off");
    let l = lowercase_of(raw);
    if l == "0"@ {
        assert(l != "1"@) by { assert(l[0] != "1"@[0]); }
    }
    if l == "1"@ {
        assert(l != "0"@) by { assert(l[0] != "0"@[0]); }
    }
    if l == "no"@ {
        assert(l != "on"@) by { assert(l[0] != "on"@[0]); }
    }
    if l == "on"@ {
        assert(l != "no"@) by { assert(l[0] != "no"@[0]); }
    }
    if l == "off"@ {
        assert(l != "yes"@) by { assert(l[0] != "yes"@[0]); }
    }
    if l == "yes"@ {
        assert(l != "off"@) by { assert(l[0] != "off"@[0]); }
    }
    if l == "false"@ {
        assert(l.len() == 5);
        assert(!is_true_word(l));
    }
    if l == "0"@ {
        assert(l.len() == 1 && l != "true"@ && l != "yes"@ && l != "on"@);
        assert(!is_true_word(l));
    }
    if l == "no"@ {
        assert(l.len() == 2 && l != "true"@ && l != "yes"@ && l != "1"@);
        assert(!is_true_word(l));
    }
    if l == "off"@ {
        assert(l.len() == 3 && l != "true"@ && l != "on"@ && l != "1"@);
        assert(!is_true_word(l));
    }
}

/// Validating the decimal text of a number as an integer in `[min, max]`
/// gives the number when it lies in the range, and the out-of-range error
/// naming it and the bounds when it does not.
pub proof fn lemma_u32_in_range(n: u32, min: u32, max: u32)
    ensures
        min <= n <= max ==> validate_spec(decimal(n as nat), ValueType::U32 { min, max })
            == Ok::<ValueModel, ValidationErrorModel>(ValueModel::U32(n)),
        !(min <= n <= max) ==> validate_spec(decimal(n as nat), ValueType::U32 { min, max })
            == Err::<ValueModel, ValidationErrorModel>(ValidationErrorModel::OutOfRange(n, min, max)),
{
    crate::text::lemma_parse_decimal_u32(n);
}

fn validate_bool(raw: &str) -> (r: Result<ValidatedValue, ValidationError>)
    ensures
        validation_model(r) == validate_spec(raw@, ValueType::Bool),
{
    let lower = to_lowercase(raw);
    let l = lower.as_str();
    if str_eq(l, "true") || str_eq(l, "1") || str_eq(l, "yes") || str_eq(l, "on") {
        Ok(ValidatedValue::Bool(true))
    } else if str_eq(l, "false") || str_eq(l, "0") || str_eq(l, "no") || str_eq(l, "off") {
        Ok(ValidatedValue::Bool(false))
    } else {
        Err(ValidationError::InvalidBool { raw: String::from_str(raw) })
    }
}

fn validate_u32(raw: &str, min: u32, max: u32) -> (r: Result<ValidatedValue, ValidationError>)
    ensures
        validation_model(r) == validate_spec(raw@, ValueType::U32 { min, max }),
{
    let v = chars_of(raw);
    match parse_u32(&v) {
        None => Err(ValidationError::InvalidInteger { raw: String::from_str(raw) }),
        Some(num) => {
            if num < min || num > max {
                Err(ValidationError::OutOfRange { value: num, min, max })
            } else {
                Ok(ValidatedValue::U32(num))
            }
        },
    }
}

fn validate_path(raw: &str) -> (r: Result<ValidatedValue, ValidationError>)
    ensures
        validation_model(r) == validate_spec(raw@, ValueType::Path),
{
    if raw.is_empty() {
        Err(ValidationError::EmptyPath)
    } else {
        Ok(ValidatedValue::Path(String::from_str(raw)))
    }
}

fn validate_token(raw: &str) -> (r: Result<ValidatedValue, ValidationError>)
    ensures
        validation_model(r) == validate_spec(raw@, ValueType::Token),
{
    if raw.is_empty() {
        Err(ValidationError::EmptyToken)
    } else {
        Ok(ValidatedValue::Token(String::from_str(raw)))
    }
}

fn validate_non_empty_string(raw: &str) -> (r: Result<ValidatedValue, ValidationError>)
    ensures
        validation_model(r) == validate_spec(raw@, ValueType::NonEmptyString),
{
    if raw.is_empty() {
        Err(ValidationError::EmptyValue)
    } else {
        Ok(ValidatedValue::NonEmptyString(String::from_str(raw)))
    }
}

fn validate_free_string(raw: &str) -> (r: Result<ValidatedValue, ValidationError>)
    ensures
        validation_model(r) == validate_spec(raw@, ValueType::FreeString),
{
    let v = chars_of(raw);
    if contains_char(&v, '/') || contains_char(&v, '\\') {
        Err(ValidationError::HasSeparator)
    } else {
        Ok(ValidatedValue::FreeString(String::from_str(raw)))
    }
}

/// Validates raw text as a value of type `ty` (see `validate_spec`).
pub fn validate_by_type(raw: &str, ty: &ValueType) -> (r: Result<ValidatedValue, ValidationError>)
    ensures
        validation_model(r) == validate_spec(raw@, *ty),
{
    match ty {
        ValueType::Url => validate_url(raw),
        ValueType::UrlTemplate => validate_url_template(raw),
        ValueType::Bool => validate_bool(raw),
        ValueType::U32 { min, max } => validate_u32(raw, *min, *max),
        ValueType::Path => validate_path(raw),
        ValueType::Token => validate_token(raw),
        ValueType::NonEmptyString => validate_non_empty_string(raw),
        ValueType::FreeString => validate_free_string(raw),
    }
}

// ───────────────────────── masking ─────────────────────────

/// A token masked for display: `***` when it has at most four characters,
/// else its first four characters followed by `***` (`ghp_abc123` →
/// `ghp_***`).
pub open spec fn masked_token(t: Seq<char>) -> Seq<char> {
    if t.len() <= 4 {
        "***"@
    } else {
        t.take(4) + "***"@
    }
}

/// `r` is the token masked for display (see `masked_token`).
pub open spec fn is_masked_token(r: Seq<char>, t: Seq<char>) -> bool {
    r == masked_token(t)
}

/// Masks a token for display (see `masked_token`).
pub fn mask_token(token: &str) -> (r: String)
    ensures
        r@ == masked_token(token@),
{
    let v = chars_of(token);
    if v.len() <= 4 {
        String::from_str("***")
    } else {
        let mut r = string_of_range(&v, 0, 4);
        append_str(&mut r, "***");
        assert(v@.subrange(0, 4) =~= token@.take(4));
        r
    }
}

/// `r` is the display text of a value of type `ty`: tokens masked, others as they are.
pub open spec fn is_masked_by_type(r: Seq<char>, display: Seq<char>, ty: ValueType) -> bool {
    match ty {
        ValueType::Token => is_masked_token(r, display),
        _ => r == display,
    }
}

/// Masks a value for display according to its type.
pub fn mask_by_type(display: &str, ty: &ValueType) -> (r: String)
    ensures
        is_masked_by_type(r@, display@, *ty),
{
    match ty {
        ValueType::Token => mask_token(display),
        _ => String::from_str(display),
    }
}

} // verus!
