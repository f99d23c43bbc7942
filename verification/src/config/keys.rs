//! Configuration key names: parsing dotted key strings into configuration
//! paths and displaying them back.

use vstd::prelude::*;
use crate::hook_cache::joined;
use crate::text::{
    append_str, chars_of, decimal, decimal_string, lemma_decimal, lemma_parse_decimal_usize, lemma_split_concat,
    lemma_split_no_sep, parse_usize, parse_usize_spec, split_chars, split_on, str_eq, string_of,
};

verus! {

/// A field of an SDK entry.
#[derive(Debug, Clone, Copy, PartialEq, Eq, Structural)]
pub enum SdkField {
    VersionUrl,
    VersionFallbackUrl,
    DownloadUrl,
    DownloadFallbackUrl,
    CurrentVersion,
    BinDir,
}

/// A configuration path named by a dotted key.
#[derive(Debug, Clone)]
pub enum ConfigKey {
    SymlinkDir,
    NetworkProxy,
    NetworkSslVerify,
    NetworkConnectTimeout,
    NetworkCacheTtlSecs,
    NetworkGithubToken,
    /// A field of the SDK entry `name`.
    Sdk { name: String, field: SdkField },
    /// One extra environment variable of an SDK.
    SdkExtraVar { name: String, var_key: String },
    /// One extra PATH entry of an SDK, by position.
    SdkExtraPath { name: String, index: usize },
}

/// The model of a key: its variant with text in place of strings.
pub enum KeyModel {
    SymlinkDir,
    NetworkProxy,
    NetworkSslVerify,
    NetworkConnectTimeout,
    NetworkCacheTtlSecs,
    NetworkGithubToken,
    Sdk { name: Seq<char>, field: SdkField },
    SdkExtraVar { name: Seq<char>, var_key: Seq<char> },
    SdkExtraPath { name: Seq<char>, index: nat },
}

impl View for ConfigKey {
    type V = KeyModel;

    open spec fn view(&self) -> KeyModel {
        match self {
            ConfigKey::SymlinkDir => KeyModel::SymlinkDir,
            ConfigKey::NetworkProxy => KeyModel::NetworkProxy,
            ConfigKey::NetworkSslVerify => KeyModel::NetworkSslVerify,
            ConfigKey::NetworkConnectTimeout => KeyModel::NetworkConnectTimeout,
            ConfigKey::NetworkCacheTtlSecs => KeyModel::NetworkCacheTtlSecs,
            ConfigKey::NetworkGithubToken => KeyModel::NetworkGithubToken,
            ConfigKey::Sdk { name, field } => KeyModel::Sdk { name: name@, field: *field },
            ConfigKey::SdkExtraVar { name, var_key } => KeyModel::SdkExtraVar { name: name@, var_key: var_key@ },
            ConfigKey::SdkExtraPath { name, index } => KeyModel::SdkExtraPath { name: name@, index: *index as nat },
        }
    }
}

/// The key name of an SDK field.
pub open spec fn field_name(f: SdkField) -> Seq<char> {
    match f {
        SdkField::VersionUrl => "version_url"@,
        SdkField::VersionFallbackUrl => "version_fallback_url"@,
        SdkField::DownloadUrl => "download_url"@,
        SdkField::DownloadFallbackUrl => "download_fallback_url"@,
        SdkField::CurrentVersion => "current_version"@,
        SdkField::BinDir => "bin_dir"@,
    }
}

/// The dotted text of a key.
pub open spec fn key_text(k: KeyModel) -> Seq<char> {
    match k {
        KeyModel::SymlinkDir => "symlink_dir"@,
        KeyModel::NetworkProxy => "network.proxy"@,
        KeyModel::NetworkSslVerify => "network.ssl_verify"@,
        KeyModel::NetworkConnectTimeout => "network.connect_timeout"@,
        KeyModel::NetworkCacheTtlSecs => "network.cache_ttl_secs"@,
        KeyModel::NetworkGithubToken => "network.github_token"@,
        KeyModel::Sdk { name, field } => "sdk."@ + name + "."@ + field_name(field),
        KeyModel::SdkExtraVar { name, var_key } => "sdk."@ + name + ".extra_vars."@ + var_key,
        KeyModel::SdkExtraPath { name, index } => "sdk."@ + name + ".extra_paths."@ + decimal(index),
    }
}

impl ConfigKey {
    /// The dotted key text (`sdk.java.download_url`).
    pub fn display(&self) -> (r: String)
        ensures
            r@ == key_text(self@),
    {
        match self {
            ConfigKey::SymlinkDir => String::from_str("symlink_dir"),
            ConfigKey::NetworkProxy => String::from_str("network.proxy"),
            ConfigKey::NetworkSslVerify => String::from_str("network.ssl_verify"),
            ConfigKey::NetworkConnectTimeout => String::from_str("network.connect_timeout"),
            ConfigKey::NetworkCacheTtlSecs => String::from_str("network.cache_ttl_secs"),
            ConfigKey::NetworkGithubToken => String::from_str("network.github_token"),
            ConfigKey::Sdk { name, field } => {
                let field_text = match field {
                    SdkField::VersionUrl => "version_url",
                    SdkField::VersionFallbackUrl => "version_fallback_url",
                    SdkField::DownloadUrl => "download_url",
                    SdkField::DownloadFallbackUrl => "download_fallback_url",
                    SdkField::CurrentVersion => "current_version",
                    SdkField::BinDir => "bin_dir",
                };
                let mut r = String::from_str("sdk.");
                append_str(&mut r, name.as_str());
                append_str(&mut r, ".");
                append_str(&mut r, field_text);
                r
            },
            ConfigKey::SdkExtraVar { name, var_key } => {
                let mut r = String::from_str("sdk.");
                append_str(&mut r, name.as_str());
                append_str(&mut r, ".extra_vars.");
                append_str(&mut r, var_key.as_str());
                r
            },
            ConfigKey::SdkExtraPath { name, index } => {
                let mut r = String::from_str("sdk.");
                append_str(&mut r, name.as_str());
                append_str(&mut r, ".extra_paths.");
                let n = decimal_string(*index as u64);
                append_str(&mut r, n.as_str());
                r
            },
        }
    }
}

/// Why a key string names no configuration path.
#[derive(Debug, Clone, Copy, PartialEq, Eq, Structural)]
pub enum KeyErrorKind {
    /// Unknown key.
    Invalid,
    /// `sdk.<name>` without a field.
    SdkNeedsField,
    /// `sdk.<name>.extra_vars` or `.extra_paths` without the variable or index.
    ExtraNeedsSubkey,
    /// An `extra_paths` index that is not a non-negative integer.
    BadIndex,
}

/// The field an SDK key segment names.
pub open spec fn sdk_field_of(w: Seq<char>) -> Option<SdkField> {
    if w == "version_url"@ {
        Some(SdkField::VersionUrl)
    } else if w == "version_fallback_url"@ {
        Some(SdkField::VersionFallbackUrl)
    } else if w == "download_url"@ {
        Some(SdkField::DownloadUrl)
    } else if w == "download_fallback_url"@ {
        Some(SdkField::DownloadFallbackUrl)
    } else if w == "current_version"@ {
        Some(SdkField::CurrentVersion)
    } else if w == "bin_dir"@ {
        Some(SdkField::BinDir)
    } else {
        None
    }
}

/// The key a dotted string names: `symlink_dir`; `network.<setting>`;
/// `sdk.<name>.<field>`; `sdk.<name>.extra_vars.<KEY>`; `sdk.<name>.extra_paths.<N>`.
pub open spec fn parse_key(s: Seq<char>) -> Result<KeyModel, KeyErrorKind> {
    let p = split_on(s, '.');
    if p.len() == 1 {
        if p[0] == "symlink_dir"@ { Ok(KeyModel::SymlinkDir) } else { Err(KeyErrorKind::Invalid) }
    } else if p.len() == 2 {
        if p[0] == "network"@ {
            if p[1] == "proxy"@ {
                Ok(KeyModel::NetworkProxy)
            } else if p[1] == "ssl_verify"@ {
                Ok(KeyModel::NetworkSslVerify)
            } else if p[1] == "connect_timeout"@ {
                Ok(KeyModel::NetworkConnectTimeout)
            } else if p[1] == "cache_ttl_secs"@ {
                Ok(KeyModel::NetworkCacheTtlSecs)
            } else if p[1] == "github_token"@ {
                Ok(KeyModel::NetworkGithubToken)
            } else {
                Err(KeyErrorKind::Invalid)
            }
        } else if p[0] == "sdk"@ {
            Err(KeyErrorKind::SdkNeedsField)
        } else {
            Err(KeyErrorKind::Invalid)
        }
    } else if p.len() == 3 {
        if p[0] == "sdk"@ {
            match sdk_field_of(p[2]) {
                Some(f) => Ok(KeyModel::Sdk { name: p[1], field: f }),
                None => if p[2] == "extra_vars"@ || p[2] == "extra_paths"@ {
                    Err(KeyErrorKind::ExtraNeedsSubkey)
                } else {
                    Err(KeyErrorKind::Invalid)
                },
            }
        } else {
            Err(KeyErrorKind::Invalid)
        }
    } else if p.len() == 4 {
        if p[0] == "sdk"@ {
            if p[2] == "extra_vars"@ {
                Ok(KeyModel::SdkExtraVar { name: p[1], var_key: p[3] })
            } else if p[2] == "extra_paths"@ {
                match parse_usize_spec(p[3]) {
                    Some(n) => Ok(KeyModel::SdkExtraPath { name: p[1], index: n as nat }),
                    None => Err(KeyErrorKind::BadIndex),
                }
            } else {
                Err(KeyErrorKind::Invalid)
            }
        } else {
            Err(KeyErrorKind::Invalid)
        }
    } else {
        Err(KeyErrorKind::Invalid)
    }
}

/// The SDK name and variable name of a key contain no `.`, and an index fits in `usize`.
pub open spec fn key_is_displayable(k: KeyModel) -> bool {
    match k {
        KeyModel::Sdk { name, .. } => !name.contains('.'),
        KeyModel::SdkExtraVar { name, var_key } => !name.contains('.') && !var_key.contains('.'),
        KeyModel::SdkExtraPath { name, index } => !name.contains('.') && index <= usize::MAX,
        _ => true,
    }
}

proof fn lemma_split_two(a: Seq<char>, b: Seq<char>)
    requires
        !a.contains('.'),
        !b.contains('.'),
    ensures
        split_on(a + seq!['.'] + b, '.') == seq![a, b],
{
    lemma_split_concat(a, b, '.');
    lemma_split_no_sep(a, '.');
    lemma_split_no_sep(b, '.');
    assert(seq![a] + seq![b] =~= seq![a, b]);
}

proof fn lemma_split_three(a: Seq<char>, b: Seq<char>, c: Seq<char>)
    requires
        !a.contains('.'),
        !b.contains('.'),
        !c.contains('.'),
    ensures
        split_on(a + seq!['.'] + (b + seq!['.'] + c), '.') == seq![a, b, c],
{
    lemma_split_concat(a, b + seq!['.'] + c, '.');
    lemma_split_no_sep(a, '.');
    lemma_split_two(b, c);
    assert(seq![a] + seq![b, c] =~= seq![a, b, c]);
}

proof fn lemma_split_four(a: Seq<char>, b: Seq<char>, c: Seq<char>, d: Seq<char>)
    requires
        !a.contains('.'),
        !b.contains('.'),
        !c.contains('.'),
        !d.contains('.'),
    ensures
        split_on(a + seq!['.'] + (b + seq!['.'] + (c + seq!['.'] + d)), '.') == seq![a, b, c, d],
{
    lemma_split_concat(a, b + seq!['.'] + (c + seq!['.'] + d), '.');
    lemma_split_no_sep(a, '.');
    lemma_split_three(b, c, d);
    assert(seq![a] + seq![b, c, d] =~= seq![a, b, c, d]);
}

proof fn lemma_roundtrip_network(k: KeyModel, w: Seq<char>)
    requires
        k is NetworkProxy || k is NetworkSslVerify || k is NetworkConnectTimeout || k is NetworkCacheTtlSecs || k is NetworkGithubToken,
        key_text(k) == "network."@ + w,
        !w.contains('.'),
        w == "proxy"@ <==> k is NetworkProxy,
        w == "ssl_verify"@ <==> k is NetworkSslVerify,
        w == "connect_timeout"@ <==> k is NetworkConnectTimeout,
        w == "cache_ttl_secs"@ <==> k is NetworkCacheTtlSecs,
        w == "github_token"@ <==> k is NetworkGithubToken,
    ensures
        parse_key(key_text(k)) == Ok::<KeyModel, KeyErrorKind>(k),
{
    reveal_strlit("network");
    reveal_strlit("network.");
    assert("network."@ + w =~= "network"@ + seq!['.'] + w);
    assert(!"network"@.contains('.')) by {
        if "network"@.contains('.') {
            let i = choose|i: int| 0 <= i < "network"@.len() && "network"@[i] == '.';
        }
    }
    lemma_split_two("network"@, w);
}

proof fn lemma_no_dot_text(w: Seq<char>)
    requires
        forall|i: int| 0 <= i < w.len() ==> w[i] != '.',
    ensures
        !w.contains('.'),
{
}

proof fn lemma_field_name_facts(f: SdkField)
    ensures
        !field_name(f).contains('.'),
        sdk_field_of(field_name(f)) == Some(f),
{
    reveal_strlit("version_url");
    reveal_strlit("version_fallback_url");
    reveal_strlit("download_url");
    reveal_strlit("download_fallback_url");
    reveal_strlit("current_version");
    reveal_strlit("bin_dir");
    let w = field_name(f);
    lemma_no_dot_text(w);
    match f {
        SdkField::VersionUrl => {},
        SdkField::VersionFallbackUrl => {
            assert(w.len() != "version_url"@.len());
        },
        SdkField::DownloadUrl => {
            assert(w.len() != "version_url"@.len());
            assert(w.len() != "version_fallback_url"@.len());
        },
        SdkField::DownloadFallbackUrl => {
            assert(w.len() != "version_url"@.len());
            assert(w.len() != "version_fallback_url"@.len());
            assert(w.len() != "download_url"@.len());
        },
        SdkField::CurrentVersion => {
            assert(w.len() != "version_url"@.len());
            assert(w.len() != "version_fallback_url"@.len());
            assert(w.len() != "download_url"@.len());
            assert(w.len() != "download_fallback_url"@.len());
        },
        SdkField::BinDir => {
            assert(w.len() != "version_url"@.len());
            assert(w.len() != "version_fallback_url"@.len());
            assert(w.len() != "download_url"@.len());
            assert(w.len() != "download_fallback_url"@.len());
            assert(w.len() != "current_version"@.len());
        },
    }
}

proof fn lemma_sdk_word()
    ensures
        !"sdk"@.contains('.'),
        "sdk."@ == "sdk"@ + seq!['.'],
{
    reveal_strlit("sdk");
    reveal_strlit("sdk.");
    lemma_no_dot_text("sdk"@);
    assert("sdk."@ =~= "sdk"@ + seq!['.']);
}

proof fn lemma_roundtrip_sdk(name: Seq<char>, field: SdkField)
    requires
        !name.contains('.'),
    ensures
        parse_key(key_text(KeyModel::Sdk { name, field })) == Ok::<KeyModel, KeyErrorKind>(KeyModel::Sdk { name, field }),
{
    reveal_strlit(".");
    let f = field_name(field);
    let dot = seq!['.'];
    lemma_field_name_facts(field);
    lemma_sdk_word();
    assert(key_text(KeyModel::Sdk { name, field }) =~= "sdk"@ + dot + (name + dot + f));
    lemma_split_three("sdk"@, name, f);
}

proof fn lemma_extra_text(name: Seq<char>, w: Seq<char>, lit: Seq<char>, x: Seq<char>, t: Seq<char>)
    requires
        lit == seq!['.'] + w + seq!['.'],
        t == "sdk."@ + name + lit + x,
    ensures
        t == "sdk"@ + seq!['.'] + (name + seq!['.'] + (w + seq!['.'] + x)),
{
    lemma_sdk_word();
    assert(t =~= "sdk"@ + seq!['.'] + (name + seq!['.'] + (w + seq!['.'] + x)));
}

proof fn lemma_parse_four(s: Seq<char>, name: Seq<char>, w: Seq<char>, x: Seq<char>)
    requires
        split_on(s, '.') == seq!["sdk"@, name, w, x],
    ensures
        parse_key(s) == (if w == "extra_vars"@ {
            Ok::<KeyModel, KeyErrorKind>(KeyModel::SdkExtraVar { name, var_key: x })
        } else if w == "extra_paths"@ {
            match parse_usize_spec(x) {
                Some(n) => Ok(KeyModel::SdkExtraPath { name, index: n as nat }),
                None => Err(KeyErrorKind::BadIndex),
            }
        } else {
            Err(KeyErrorKind::Invalid)
        }),
{
    let p = split_on(s, '.');
    assert(p.len() == 4);
    assert(p[0] == "sdk"@ && p[1] == name && p[2] == w && p[3] == x);
}

proof fn lemma_roundtrip_extra_var(name: Seq<char>, var_key: Seq<char>)
    requires
        !name.contains('.'),
        !var_key.contains('.'),
    ensures
        parse_key(key_text(KeyModel::SdkExtraVar { name, var_key })) == Ok::<KeyModel, KeyErrorKind>(KeyModel::SdkExtraVar { name, var_key }),
{
    let ev = "extra_vars"@;
    let t = key_text(KeyModel::SdkExtraVar { name, var_key });
    assert(".extra_vars."@ == seq!['.'] + ev + seq!['.']) by {
        reveal_strlit(".extra_vars.");
        reveal_strlit("extra_vars");
        assert(".extra_vars."@ =~= seq!['.'] + ev + seq!['.']);
    }
    assert(!ev.contains('.')) by {
        reveal_strlit("extra_vars");
        lemma_no_dot_text(ev);
    }
    lemma_sdk_word();
    lemma_extra_text(name, ev, ".extra_vars."@, var_key, t);
    lemma_split_four("sdk"@, name, ev, var_key);
    lemma_parse_four(t, name, ev, var_key);
}

proof fn lemma_roundtrip_extra_path(name: Seq<char>, index: nat)
    requires
        !name.contains('.'),
        index <= usize::MAX,
    ensures
        parse_key(key_text(KeyModel::SdkExtraPath { name, index })) == Ok::<KeyModel, KeyErrorKind>(KeyModel::SdkExtraPath { name, index }),
{
    let ep = "extra_paths"@;
    let d = decimal(index);
    let t = key_text(KeyModel::SdkExtraPath { name, index });
    assert(".extra_paths."@ == seq!['.'] + ep + seq!['.']) by {
        reveal_strlit(".extra_paths.");
        reveal_strlit("extra_paths");
        assert(".extra_paths."@ =~= seq!['.'] + ep + seq!['.']);
    }
    assert(!ep.contains('.') && ep != "extra_vars"@) by {
        reveal_strlit("extra_paths");
        reveal_strlit("extra_vars");
        lemma_no_dot_text(ep);
        assert(ep.len() != "extra_vars"@.len());
    }
    lemma_parse_decimal_usize(index as usize);
    lemma_sdk_word();
    lemma_extra_text(name, ep, ".extra_paths."@, d, t);
    lemma_split_four("sdk"@, name, ep, d);
    lemma_parse_four(t, name, ep, d);
}

/// Displaying a key and parsing its text gives the key back (for SDK and
/// variable names without `.`).
pub proof fn lemma_parse_display_roundtrip(k: KeyModel)
    requires
        key_is_displayable(k),
    ensures
        parse_key(key_text(k)) == Ok::<KeyModel, KeyErrorKind>(k),
{
    match k {
        KeyModel::SymlinkDir => {
            reveal_strlit("symlink_dir");
            let w = "symlink_dir"@;
            assert(!w.contains('.')) by {
                if w.contains('.') {
                    let i = choose|i: int| 0 <= i < w.len() && w[i] == '.';
                }
            }
            lemma_split_no_sep(w, '.');
        },
        KeyModel::NetworkProxy => {
            reveal_strlit("network.proxy");
            reveal_strlit("network.");
            reveal_strlit("proxy");
            reveal_strlit("ssl_verify");
            reveal_strlit("connect_timeout");
            reveal_strlit("cache_ttl_secs");
            reveal_strlit("github_token");
            assert("network.proxy"@ =~= "network."@ + "proxy"@);
            lemma_roundtrip_network(k, "proxy"@);
        },
        KeyModel::NetworkSslVerify => {
            reveal_strlit("network.ssl_verify");
            reveal_strlit("network.");
            reveal_strlit("proxy");
            reveal_strlit("ssl_verify");
            reveal_strlit("connect_timeout");
            reveal_strlit("cache_ttl_secs");
            reveal_strlit("github_token");
            assert("network.ssl_verify"@ =~= "network."@ + "ssl_verify"@);
            lemma_roundtrip_network(k, "ssl_verify"@);
        },
        KeyModel::NetworkConnectTimeout => {
            reveal_strlit("network.connect_timeout");
            reveal_strlit("network.");
            reveal_strlit("proxy");
            reveal_strlit("ssl_verify");
            reveal_strlit("connect_timeout");
            reveal_strlit("cache_ttl_secs");
            reveal_strlit("github_token");
            assert("network.connect_timeout"@ =~= "network."@ + "connect_timeout"@);
            lemma_roundtrip_network(k, "connect_timeout"@);
        },
        KeyModel::NetworkCacheTtlSecs => {
            reveal_strlit("network.cache_ttl_secs");
            reveal_strlit("network.");
            reveal_strlit("proxy");
            reveal_strlit("ssl_verify");
            reveal_strlit("connect_timeout");
            reveal_strlit("cache_ttl_secs");
            reveal_strlit("github_token");
            assert("network.cache_ttl_secs"@ =~= "network."@ + "cache_ttl_secs"@);
            lemma_roundtrip_network(k, "cache_ttl_secs"@);
        },
        KeyModel::NetworkGithubToken => {
            reveal_strlit("network.github_token");
            reveal_strlit("network.");
            reveal_strlit("proxy");
            reveal_strlit("ssl_verify");
            reveal_strlit("connect_timeout");
            reveal_strlit("cache_ttl_secs");
            reveal_strlit("github_token");
            assert("network.github_token"@ =~= "network."@ + "github_token"@);
            lemma_roundtrip_network(k, "github_token"@);
        },
        KeyModel::Sdk { name, field } => {
            lemma_roundtrip_sdk(name, field);
        },
        KeyModel::SdkExtraVar { name, var_key } => {
            lemma_roundtrip_extra_var(name, var_key);
        },
        KeyModel::SdkExtraPath { name, index } => {
            lemma_roundtrip_extra_path(name, index);
        },
    }
}

/// Replacing the last piece of a join by that piece with `x` appended
/// appends `x` to the join.
proof fn lemma_joined_push_last(ps: Seq<Seq<char>>, sep: Seq<char>, x: char)
    requires
        ps.len() >= 1,
    ensures
        joined(ps.update(ps.len() - 1, ps.last().push(x)), sep) == joined(ps, sep).push(x),
{
    let q = ps.update(ps.len() - 1, ps.last().push(x));
    if ps.len() > 1 {
        assert(q.drop_last() =~= ps.drop_last());
        assert(q.last() == ps.last().push(x));
        assert(joined(q, sep) == joined(ps.drop_last(), sep) + sep + ps.last().push(x));
        assert(joined(ps.drop_last(), sep) + sep + ps.last().push(x) =~= (joined(ps.drop_last(), sep) + sep
            + ps.last()).push(x));
    } else {
        assert(q[0] == ps[0].push(x));
    }
}

/// Joining the pieces of a split with the separator gives the text back.
pub(crate) proof fn lemma_join_split(s: Seq<char>, c: char)
    ensures
        joined(split_on(s, c), seq![c]) == s,
    decreases s.len(),
{
    crate::text::lemma_split_on_len(s, c);
    if s.len() == 0 {
        assert(split_on(s, c) =~= seq![Seq::<char>::empty()]);
        assert(s =~= Seq::<char>::empty());
    } else {
        let rest = split_on(s.drop_last(), c);
        lemma_join_split(s.drop_last(), c);
        crate::text::lemma_split_on_len(s.drop_last(), c);
        if s.last() == c {
            let q = rest.push(Seq::<char>::empty());
            assert(q.drop_last() =~= rest);
            assert(joined(q, seq![c]) == joined(rest, seq![c]) + seq![c] + Seq::<char>::empty());
            assert(s.drop_last() + seq![c] + Seq::<char>::empty() =~= s);
        } else {
            lemma_joined_push_last(rest, seq![c], s.last());
            assert(s.drop_last().push(s.last()) =~= s);
        }
    }
}

/// The join of two, three or four pieces, written out.
proof fn lemma_joined_small(p: Seq<Seq<char>>, d: Seq<char>)
    requires
        2 <= p.len() <= 4,
    ensures
        p.len() == 2 ==> joined(p, d) == p[0] + d + p[1],
        p.len() == 3 ==> joined(p, d) == p[0] + d + p[1] + d + p[2],
        p.len() == 4 ==> joined(p, d) == p[0] + d + p[1] + d + p[2] + d + p[3],
{
    let p1 = p.take(1);
    let p2 = p.take(2);
    let p3 = p.take(3);
    assert(joined(p1, d) == p[0]);
    assert(p2.drop_last() =~= p1);
    assert(joined(p2, d) == p[0] + d + p[1]);
    if p.len() == 2 {
        assert(p2 =~= p);
    } else {
        assert(p3.drop_last() =~= p2);
        assert(joined(p3, d) == p[0] + d + p[1] + d + p[2]);
        if p.len() == 3 {
            assert(p3 =~= p);
        } else {
            assert(p.drop_last() =~= p3);
        }
    }
}

proof fn lemma_network_texts()
    ensures
        "network.proxy"@ == "network"@ + seq!['.'] + "proxy"@,
        "network.ssl_verify"@ == "network"@ + seq!['.'] + "ssl_verify"@,
        "network.connect_timeout"@ == "network"@ + seq!['.'] + "connect_timeout"@,
        "network.cache_ttl_secs"@ == "network"@ + seq!['.'] + "cache_ttl_secs"@,
        "network.github_token"@ == "network"@ + seq!['.'] + "github_token"@,
{
    reveal_strlit("network");
    reveal_strlit("network.proxy");
    reveal_strlit("network.ssl_verify");
    reveal_strlit("network.connect_timeout");
    reveal_strlit("network.cache_ttl_secs");
    reveal_strlit("network.github_token");
    reveal_strlit("proxy");
    reveal_strlit("ssl_verify");
    reveal_strlit("connect_timeout");
    reveal_strlit("cache_ttl_secs");
    reveal_strlit("github_token");
    assert("network.proxy"@ =~= "network"@ + seq!['.'] + "proxy"@);
    assert("network.ssl_verify"@ =~= "network"@ + seq!['.'] + "ssl_verify"@);
    assert("network.connect_timeout"@ =~= "network"@ + seq!['.'] + "connect_timeout"@);
    assert("network.cache_ttl_secs"@ =~= "network"@ + seq!['.'] + "cache_ttl_secs"@);
    assert("network.github_token"@ =~= "network"@ + seq!['.'] + "github_token"@);
}

proof fn lemma_sdk_texts()
    ensures
        "sdk."@ == "sdk"@ + seq!['.'],
        "."@ == seq!['.'],
        ".extra_vars."@ == seq!['.'] + "extra_vars"@ + seq!['.'],
        ".extra_paths."@ == seq!['.'] + "extra_paths"@ + seq!['.'],
{
    reveal_strlit("sdk");
    reveal_strlit("sdk.");
    reveal_strlit(".");
    reveal_strlit(".extra_vars.");
    reveal_strlit(".extra_paths.");
    reveal_strlit("extra_vars");
    reveal_strlit("extra_paths");
    assert("sdk."@ =~= "sdk"@ + seq!['.']);
    assert(".extra_vars."@ =~= seq!['.'] + "extra_vars"@ + seq!['.']);
    assert(".extra_paths."@ =~= seq!['.'] + "extra_paths"@ + seq!['.']);
}

/// Parsing a key and displaying the key gives the text back, when an
/// `extra_paths` index is written in its plain decimal form (`01` parses as
/// index 1, which displays as `1`).
pub proof fn lemma_parse_then_display(s: Seq<char>)
    requires
        match parse_key(s) {
            Ok(KeyModel::SdkExtraPath { name, index }) => split_on(s, '.')[3] == decimal(index),
            Ok(_) => true,
            Err(_) => false,
        },
    ensures
        match parse_key(s) {
            Ok(k) => key_text(k) == s,
            Err(_) => true,
        },
{
    let p = split_on(s, '.');
    let d = seq!['.'];
    lemma_join_split(s, '.');
    lemma_sdk_texts();
    if p.len() == 1 {
        assert(s == p[0]);
    } else if p.len() == 2 {
        lemma_joined_small(p, d);
        lemma_network_texts();
    } else if 3 <= p.len() <= 4 {
        lemma_joined_small(p, d);
        match parse_key(s) {
            Ok(KeyModel::Sdk { name, field }) => {
                assert(p[2] == field_name(field));
                assert(key_text(KeyModel::Sdk { name, field }) =~= p[0] + d + p[1] + d + p[2]);
            },
            Ok(KeyModel::SdkExtraVar { name, var_key }) => {
                assert(key_text(KeyModel::SdkExtraVar { name, var_key }) =~= p[0] + d + p[1] + d + p[2] + d + p[3]);
            },
            Ok(KeyModel::SdkExtraPath { name, index }) => {
                assert(key_text(KeyModel::SdkExtraPath { name, index }) =~= p[0] + d + p[1] + d + p[2] + d + p[3]);
            },
            _ => {},
        }
    }
}

/// A key string that names no configuration path.
pub struct ConfigKeyError {
    pub kind: KeyErrorKind,
    /// The whole key string.
    pub key: String,
    /// The SDK name (second segment) when the kind is `ExtraNeedsSubkey`.
    pub name: String,
    /// The index segment when the kind is `BadIndex`.
    pub index: String,
}

/// The message of a key error.
pub open spec fn key_error_text(e: ConfigKeyError) -> Seq<char> {
    match e.kind {
        KeyErrorKind::Invalid => "Invalid config key '"@ + e.key@ + "'.\nValid keys:\n  symlink_dir,\n  network.proxy, network.ssl_verify, network.connect_timeout, network.cache_ttl_secs, network.github_token\n  sdk.<name>.version_url, sdk.<name>.download_url, sdk.<name>.current_version, ...\n  sdk.<name>.extra_vars.<KEY>, sdk.<name>.extra_paths.<N>"@,
        KeyErrorKind::SdkNeedsField => "Invalid config key '"@ + e.key@ + "'. SDK keys require 3+ segments: sdk.<name>.<field>\nValid examples: sdk.java.download_url, sdk.java.extra_vars.JAVA_HOME"@,
        KeyErrorKind::ExtraNeedsSubkey => "Invalid config key '"@ + e.key@ + "'. For extra_vars, use: sdk."@ + e.name@ + ".extra_vars.<KEY>\nFor extra_paths, use: sdk."@ + e.name@ + ".extra_paths.<N>"@,
        KeyErrorKind::BadIndex => "Invalid extra_paths index '"@ + e.index@ + "', must be a non-negative integer"@,
    }
}

impl ConfigKeyError {
    /// The error message (with the list of valid keys for an unknown key).
    pub fn message(&self) -> (m: String)
        ensures
            m@ == key_error_text(*self),
    {
        let mut m = String::new();
        match self.kind {
            KeyErrorKind::Invalid => {
                append_str(&mut m, "Invalid config key '");
                append_str(&mut m, self.key.as_str());
                append_str(&mut m, "'.\nValid keys:\n  symlink_dir,\n  network.proxy, network.ssl_verify, network.connect_timeout, network.cache_ttl_secs, network.github_token\n  sdk.<name>.version_url, sdk.<name>.download_url, sdk.<name>.current_version, ...\n  sdk.<name>.extra_vars.<KEY>, sdk.<name>.extra_paths.<N>");
            },
            KeyErrorKind::SdkNeedsField => {
                append_str(&mut m, "Invalid config key '");
                append_str(&mut m, self.key.as_str());
                append_str(&mut m, "'. SDK keys require 3+ segments: sdk.<name>.<field>\nValid examples: sdk.java.download_url, sdk.java.extra_vars.JAVA_HOME");
            },
            KeyErrorKind::ExtraNeedsSubkey => {
                append_str(&mut m, "Invalid config key '");
                append_str(&mut m, self.key.as_str());
                append_str(&mut m, "'. For extra_vars, use: sdk.");
                append_str(&mut m, self.name.as_str());
                append_str(&mut m, ".extra_vars.<KEY>\nFor extra_paths, use: sdk.");
                append_str(&mut m, self.name.as_str());
                append_str(&mut m, ".extra_paths.<N>");
            },
            KeyErrorKind::BadIndex => {
                append_str(&mut m, "Invalid extra_paths index '");
                append_str(&mut m, self.index.as_str());
                append_str(&mut m, "', must be a non-negative integer");
            },
        }
        m
    }
}

fn key_error(kind: KeyErrorKind, key: &str) -> (e: ConfigKeyError)
    ensures
        e.kind == kind && e.key@ == key@,
{
    ConfigKeyError { kind, key: String::from_str(key), name: String::new(), index: String::new() }
}

/// `sdk_field_of` of a segment.
fn sdk_field_exec(w: &Vec<char>) -> (r: Option<SdkField>)
    ensures
        r == sdk_field_of(w@),
{
    let s = string_of(w);
    if str_eq(s.as_str(), "version_url") {
        Some(SdkField::VersionUrl)
    } else if str_eq(s.as_str(), "version_fallback_url") {
        Some(SdkField::VersionFallbackUrl)
    } else if str_eq(s.as_str(), "download_url") {
        Some(SdkField::DownloadUrl)
    } else if str_eq(s.as_str(), "download_fallback_url") {
        Some(SdkField::DownloadFallbackUrl)
    } else if str_eq(s.as_str(), "current_version") {
        Some(SdkField::CurrentVersion)
    } else if str_eq(s.as_str(), "bin_dir") {
        Some(SdkField::BinDir)
    } else {
        None
    }
}

fn seg_is(p: &Vec<Vec<char>>, i: usize, w: &str) -> (r: bool)
    requires
        i < p@.len(),
    ensures
        r == (p@[i as int]@ == w@),
{
    let s = string_of(&p[i]);
    str_eq(s.as_str(), w)
}

/// Parses a dotted key string (`network.proxy`, `sdk.java.download_url`,
/// `sdk.java.extra_vars.JAVA_HOME`, `sdk.java.extra_paths.0`).
pub fn parse_config_key(key: &str) -> (r: Result<ConfigKey, ConfigKeyError>)
    ensures
        match parse_key(key@) {
            Ok(m) => r matches Ok(k) && k@ == m,
            Err(kind) => r matches Err(e) && e.kind == kind && e.key@ == key@
                && (kind == KeyErrorKind::ExtraNeedsSubkey ==> e.name@ == split_on(key@, '.')[1])
                && (kind == KeyErrorKind::BadIndex ==> e.index@ == split_on(key@, '.')[3]),
        },
{
    let kv = chars_of(key);
    let p = split_chars(&kv, '.');
    let ghost sp = split_on(key@, '.');
    assert(forall|i: int| 0 <= i < p@.len() ==> (#[trigger] p@[i])@ == sp[i]);
    if p.len() == 1 {
        if seg_is(&p, 0, "symlink_dir") {
            Ok(ConfigKey::SymlinkDir)
        } else {
            Err(key_error(KeyErrorKind::Invalid, key))
        }
    } else if p.len() == 2 {
        if seg_is(&p, 0, "network") {
            if seg_is(&p, 1, "proxy") {
                Ok(ConfigKey::NetworkProxy)
            } else if seg_is(&p, 1, "ssl_verify") {
                Ok(ConfigKey::NetworkSslVerify)
            } else if seg_is(&p, 1, "connect_timeout") {
                Ok(ConfigKey::NetworkConnectTimeout)
            } else if seg_is(&p, 1, "cache_ttl_secs") {
                Ok(ConfigKey::NetworkCacheTtlSecs)
            } else if seg_is(&p, 1, "github_token") {
                Ok(ConfigKey::NetworkGithubToken)
            } else {
                Err(key_error(KeyErrorKind::Invalid, key))
            }
        } else if seg_is(&p, 0, "sdk") {
            Err(key_error(KeyErrorKind::SdkNeedsField, key))
        } else {
            Err(key_error(KeyErrorKind::Invalid, key))
        }
    } else if p.len() == 3 {
        if seg_is(&p, 0, "sdk") {
            match sdk_field_exec(&p[2]) {
                Some(f) => Ok(ConfigKey::Sdk { name: string_of(&p[1]), field: f }),
                None => {
                    if seg_is(&p, 2, "extra_vars") || seg_is(&p, 2, "extra_paths") {
                        Err(ConfigKeyError {
                            kind: KeyErrorKind::ExtraNeedsSubkey,
                            key: String::from_str(key),
                            name: string_of(&p[1]),
                            index: String::new(),
                        })
                    } else {
                        Err(key_error(KeyErrorKind::Invalid, key))
                    }
                },
            }
        } else {
            Err(key_error(KeyErrorKind::Invalid, key))
        }
    } else if p.len() == 4 {
        if seg_is(&p, 0, "sdk") {
            if seg_is(&p, 2, "extra_vars") {
                Ok(ConfigKey::SdkExtraVar { name: string_of(&p[1]), var_key: string_of(&p[3]) })
            } else if seg_is(&p, 2, "extra_paths") {
                match parse_usize(&p[3]) {
                    Some(n) => Ok(ConfigKey::SdkExtraPath { name: string_of(&p[1]), index: n }),
                    None => Err(ConfigKeyError {
                        kind: KeyErrorKind::BadIndex,
                        key: String::from_str(key),
                        name: String::new(),
                        index: string_of(&p[3]),
                    }),
                }
            } else {
                Err(key_error(KeyErrorKind::Invalid, key))
            }
        } else {
            Err(key_error(KeyErrorKind::Invalid, key))
        }
    } else {
        Err(key_error(KeyErrorKind::Invalid, key))
    }
}

/// All key shapes, for help and error messages.
pub fn known_keys() -> (r: Vec<&'static str>)
    ensures
        r@.len() == 14,
        r@[0]@ == "symlink_dir"@,
        r@[1]@ == "network.proxy"@,
        r@[2]@ == "network.ssl_verify"@,
        r@[3]@ == "network.connect_timeout"@,
        r@[4]@ == "network.cache_ttl_secs"@,
        r@[5]@ == "network.github_token"@,
        r@[6]@ == "sdk.<name>.version_url"@,
        r@[7]@ == "sdk.<name>.version_fallback_url"@,
        r@[8]@ == "sdk.<name>.download_url"@,
        r@[9]@ == "sdk.<name>.download_fallback_url"@,
        r@[10]@ == "sdk.<name>.current_version"@,
        r@[11]@ == "sdk.<name>.bin_dir"@,
        r@[12]@ == "sdk.<name>.extra_vars.<KEY>"@,
        r@[13]@ == "sdk.<name>.extra_paths.<N>"@,
{
    let mut r: Vec<&'static str> = Vec::new();
    r.push("symlink_dir");
    r.push("network.proxy");
    r.push("network.ssl_verify");
    r.push("network.connect_timeout");
    r.push("network.cache_ttl_secs");
    r.push("network.github_token");
    r.push("sdk.<name>.version_url");
    r.push("sdk.<name>.version_fallback_url");
    r.push("sdk.<name>.download_url");
    r.push("sdk.<name>.download_fallback_url");
    r.push("sdk.<name>.current_version");
    r.push("sdk.<name>.bin_dir");
    r.push("sdk.<name>.extra_vars.<KEY>");
    r.push("sdk.<name>.extra_paths.<N>");
    r
}

} // verus!
