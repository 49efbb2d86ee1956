//! The persisted configuration document and its codec.
//!
//! The document is a line-based key/value text.  Fields appear in a fixed
//! order, one per line, as `key=value`; the optional working directory line
//! is present exactly when the field is set, and each extra environment
//! variable occupies one `memos.env.NAME=value` line:
//!
//! ```text
//! memos.mode=prod
//! memos.addr=127.0.0.1
//! memos.port=0
//! memos.telemetry=false
//! memos.working_dir=~/memos
//! memos.env.EXTRA=1
//! ```
//!
//! A missing or malformed document is never used: the caller replaces it
//! with the default document first.

use vstd::prelude::*;

use crate::errors::BootError;
use crate::text::dec_spec;
use crate::text::find_char;
use crate::text::find_from;
use crate::text::has_prefix_at;
use crate::text::lemma_find_from;
use crate::text::parse_u16;
use crate::text::parse_u16_spec;
use crate::text::prefix_at;
use crate::text::str_eq;
use crate::text::u16_to_dec;

verus! {

/// The persisted settings of the supervised server.
#[derive(Debug)]
pub struct ConfigDocument {
    /// Server mode, e.g. `prod`.
    pub mode: String,
    /// Bind address.
    pub addr: String,
    /// Port; `0` means any free port.
    pub port: u16,
    /// Telemetry flag.
    pub telemetry: bool,
    /// Optional user-configured working directory.
    pub working_dir: Option<String>,
    /// Extra environment variables, in document order.
    pub env: Vec<(String, String)>,
}

/// The mathematical content of a configuration document.
#[verifier::ext_equal]
pub ghost struct ConfigData {
    pub mode: Seq<char>,
    pub addr: Seq<char>,
    pub port: u16,
    pub telemetry: bool,
    pub working_dir: Option<Seq<char>>,
    pub env: Seq<(Seq<char>, Seq<char>)>,
}

impl View for ConfigDocument {
    type V = ConfigData;

    open spec fn view(&self) -> ConfigData {
        ConfigData {
            mode: self.mode@,
            addr: self.addr@,
            port: self.port,
            telemetry: self.telemetry,
            working_dir: match self.working_dir {
                Some(w) => Some(w@),
                None => None,
            },
            env: self.env.deep_view(),
        }
    }
}

/// A value that fits on one line of the document.
pub open spec fn line_ok(s: Seq<char>) -> bool {
    forall|i: int| 0 <= i < s.len() ==> #[trigger] s[i] != '\n'
}

/// An environment-variable name as it may appear in the document.
pub open spec fn env_key_ok(s: Seq<char>) -> bool {
    forall|i: int| 0 <= i < s.len() ==> #[trigger] s[i] != '\n' && s[i] != '='
}

/// Every extra environment entry fits the document format.
pub open spec fn env_entries_ok(env: Seq<(Seq<char>, Seq<char>)>) -> bool {
    forall|i: int| 0 <= i < env.len() ==> env_key_ok(#[trigger] env[i].0) && line_ok(env[i].1)
}

/// The field combinations the document format can carry.
pub open spec fn valid_config(c: ConfigData) -> bool {
    &&& line_ok(c.mode)
    &&& line_ok(c.addr)
    &&& (c.working_dir matches Some(w) ==> line_ok(w))
    &&& env_entries_ok(c.env)
}

/// The default document: production mode on the loopback address, any
/// free port, telemetry off, no working directory, no extra variables.
pub open spec fn default_config() -> ConfigData {
    ConfigData {
        mode: "prod"@,
        addr: "127.0.0.1"@,
        port: 0,
        telemetry: false,
        working_dir: None,
        env: Seq::empty(),
    }
}

pub open spec fn k_mode() -> Seq<char> {
    "memos.mode="@
}

pub open spec fn k_addr() -> Seq<char> {
    "memos.addr="@
}

pub open spec fn k_port() -> Seq<char> {
    "memos.port="@
}

pub open spec fn k_telemetry() -> Seq<char> {
    "memos.telemetry="@
}

pub open spec fn k_working_dir() -> Seq<char> {
    "memos.working_dir="@
}

pub open spec fn k_env() -> Seq<char> {
    "memos.env."@
}

pub open spec fn bool_str(b: bool) -> Seq<char> {
    if b {
        "true"@
    } else {
        "false"@
    }
}

/// One `memos.env.NAME=value` line.
pub open spec fn env_line(k: Seq<char>, v: Seq<char>) -> Seq<char> {
    k_env() + k + seq!['='] + v + seq!['\n']
}

/// The environment lines of the document, in order.
pub open spec fn ser_env(env: Seq<(Seq<char>, Seq<char>)>) -> Seq<char>
    decreases env.len(),
{
    if env.len() == 0 {
        Seq::empty()
    } else {
        env_line(env[0].0, env[0].1) + ser_env(env.drop_first())
    }
}

/// One `key=value` line of the document.
pub open spec fn line_of(key: Seq<char>, value: Seq<char>) -> Seq<char> {
    key + value + seq!['\n']
}

/// The serialized form of a configuration document.
pub open spec fn ser_spec(c: ConfigData) -> Seq<char> {
    line_of(k_mode(), c.mode) + (line_of(k_addr(), c.addr) + (line_of(
        k_port(),
        dec_spec(c.port as int),
    ) + (line_of(k_telemetry(), bool_str(c.telemetry)) + ((match c.working_dir {
        Some(w) => line_of(k_working_dir(), w),
        None => Seq::empty(),
    }) + ser_env(c.env)))))
}

/// Read one `key=value` line: when `key` occurs at `pos` and a newline
/// follows, the value between them and the position after the newline.
pub open spec fn parse_line_after(s: Seq<char>, pos: int, key: Seq<char>) -> Option<
    (Seq<char>, int),
> {
    if prefix_at(s, pos, key) {
        let vstart = pos + key.len();
        let vend = find_from(s, vstart, '\n');
        if vend < s.len() {
            Some((s.subrange(vstart, vend), vend + 1))
        } else {
            None
        }
    } else {
        None
    }
}

/// A successful line read lands strictly further in the document.
pub proof fn lemma_parse_line_after_bounds(s: Seq<char>, pos: int, key: Seq<char>)
    requires
        0 <= pos <= s.len(),
    ensures
        parse_line_after(s, pos, key) matches Some(p) ==> pos < p.1 <= s.len(),
{
    if prefix_at(s, pos, key) {
        lemma_find_from(s, pos + key.len(), '\n');
    }
}

/// The environment lines from `pos` to the end of the document.
pub open spec fn parse_env_spec(s: Seq<char>, pos: int) -> Option<Seq<(Seq<char>, Seq<char>)>>
    decreases s.len() - pos,
    via parse_env_spec_dec
{
    if pos == s.len() {
        Some(Seq::empty())
    } else {
        match parse_line_after(s, pos, k_env()) {
            None => None,
            Some((kv, next)) => {
                let eq = find_from(kv, 0, '=');
                if eq < kv.len() {
                    match parse_env_spec(s, next) {
                        None => None,
                        Some(rest) => Some(
                            seq![(kv.subrange(0, eq), kv.subrange(eq + 1, kv.len() as int))]
                                + rest,
                        ),
                    }
                } else {
                    None
                }
            },
        }
    }
}

#[via_fn]
proof fn parse_env_spec_dec(s: Seq<char>, pos: int) {
    if 0 <= pos <= s.len() {
        lemma_parse_line_after_bounds(s, pos, k_env());
    }
}

/// The default configuration document.
pub fn default_document() -> (r: ConfigDocument)
    ensures
        r@ == default_config(),
        valid_config(r@),
{
    let r = ConfigDocument {
        mode: "prod".to_owned(),
        addr: "127.0.0.1".to_owned(),
        port: 0,
        telemetry: false,
        working_dir: None,
        env: Vec::new(),
    };
    proof {
        assert(r@.env =~= Seq::<(Seq<char>, Seq<char>)>::empty());
        assert(r@ =~= default_config());
        lemma_default_valid();
    }
    r
}

/// The default document fits the document format.
pub proof fn lemma_default_valid()
    ensures
        valid_config(default_config()),
{
    reveal_strlit("prod");
    reveal_strlit("127.0.0.1");
    assert forall|i: int| 0 <= i < "prod"@.len() implies #[trigger] "prod"@[i] != '\n' by {
        assert("prod"@.len() == 4);
    }
    assert forall|i: int| 0 <= i < "127.0.0.1"@.len() implies #[trigger] "127.0.0.1"@[i]
        != '\n' by {
        assert("127.0.0.1"@.len() == 9);
    }
}

/// Render a configuration document in its serialized form.
#[verifier::spinoff_prover]
#[verifier::rlimit(100)]
pub fn serialize_config(doc: &ConfigDocument) -> (r: String)
    ensures
        r@ == ser_spec(doc@),
{
    proof {
        reveal_strlit("\n");
        reveal_strlit("=");
    }
    let mut out: String = "memos.mode=".to_owned();
    out.append(doc.mode.as_str());
    out.append("\n");
    out.append("memos.addr=");
    out.append(doc.addr.as_str());
    out.append("\n");
    out.append("memos.port=");
    let port_str: String = u16_to_dec(doc.port);
    out.append(port_str.as_str());
    out.append("\n");
    out.append("memos.telemetry=");
    if doc.telemetry {
        out.append("true");
    } else {
        out.append("false");
    }
    out.append("\n");
    match &doc.working_dir {
        Some(w) => {
            out.append("memos.working_dir=");
            out.append(w.as_str());
            out.append("\n");
        },
        None => {},
    }
    proof {
        assert(("\n")@ =~= seq!['\n']);
        assert(doc@.env.skip(0) =~= doc@.env);
        assert(ser_spec(doc@) =~= out@ + ser_env(doc@.env));
    }
    let ghost denv = doc@.env;
    let mut i: usize = 0;
    while i < doc.env.len()
        invariant
            0 <= i <= doc.env.len(),
            denv == doc@.env,
            doc.env.len() == denv.len(),
            ser_spec(doc@) == out@ + ser_env(denv.skip(i as int)),
        decreases doc.env.len() - i,
    {
        let entry = &doc.env[i];
        let ghost before = out@;
        out.append("memos.env.");
        out.append(entry.0.as_str());
        out.append("=");
        out.append(entry.1.as_str());
        out.append("\n");
        proof {
            reveal_strlit("\n");
            reveal_strlit("=");
            assert(("\n")@ =~= seq!['\n']);
            assert(("=")@ =~= seq!['=']);
            assert(denv[i as int] == (entry.0@, entry.1@));
            assert(out@ =~= before + env_line(denv[i as int].0, denv[i as int].1));
            assert(denv.skip(i as int).drop_first() =~= denv.skip(i as int + 1));
            assert(denv.skip(i as int)[0] == denv[i as int]);
            assert(ser_env(denv.skip(i as int)) == env_line(denv[i as int].0, denv[i as int].1)
                + ser_env(denv.skip(i as int + 1)));
            assert(before + ser_env(denv.skip(i as int)) =~= out@ + ser_env(
                denv.skip(i as int + 1),
            ));
        }
        i += 1;
    }
    proof {
        assert(denv.skip(denv.len() as int) =~= Seq::<(Seq<char>, Seq<char>)>::empty());
        assert(out@ + ser_env(denv.skip(denv.len() as int)) =~= out@);
    }
    out
}

/// Read one `key=value` line of the document.
fn read_line_after(s: &str, pos: usize, key: &str) -> (r: Option<(String, usize)>)
    requires
        pos <= s@.len(),
    ensures
        ({
            let sp = parse_line_after(s@, pos as int, key@);
            match r {
                None => sp is None,
                Some(p) => sp == Some((p.0@, p.1 as int)) && pos < p.1 <= s@.len(),
            }
        }),
{
    if !has_prefix_at(s, pos, key) {
        return None;
    }
    let n: usize = s.unicode_len();
    let klen: usize = key.unicode_len();
    assert(pos + klen <= n);
    let vstart: usize = pos + klen;
    let vend: usize = find_char(s, vstart, '\n');
    proof {
        lemma_find_from(s@, vstart as int, '\n');
    }
    if vend < n {
        let value: String = s.substring_char(vstart, vend).to_owned();
        Some((value, vend + 1))
    } else {
        None
    }
}

/// What a document text denotes: `Some` exactly on well-formed documents.
pub open spec fn parse_spec(s: Seq<char>) -> Option<ConfigData> {
    match parse_line_after(s, 0, k_mode()) {
        None => None,
        Some((mode, p1)) => match parse_line_after(s, p1, k_addr()) {
            None => None,
            Some((addr, p2)) => match parse_line_after(s, p2, k_port()) {
                None => None,
                Some((pv, p3)) => match parse_u16_spec(pv) {
                    None => None,
                    Some(port) => match parse_line_after(s, p3, k_telemetry()) {
                        None => None,
                        Some((tv, p4)) => {
                            if tv == "true"@ || tv == "false"@ {
                                let telemetry = tv == "true"@;
                                if prefix_at(s, p4, k_working_dir()) {
                                    match parse_line_after(s, p4, k_working_dir()) {
                                        None => None,
                                        Some((w, p5)) => match parse_env_spec(s, p5) {
                                            None => None,
                                            Some(env) => Some(
                                                ConfigData {
                                                    mode,
                                                    addr,
                                                    port,
                                                    telemetry,
                                                    working_dir: Some(w),
                                                    env,
                                                },
                                            ),
                                        },
                                    }
                                } else {
                                    match parse_env_spec(s, p4) {
                                        None => None,
                                        Some(env) => Some(
                                            ConfigData {
                                                mode,
                                                addr,
                                                port,
                                                telemetry,
                                                working_dir: None,
                                                env,
                                            },
                                        ),
                                    }
                                }
                            } else {
                                None
                            }
                        },
                    },
                },
            },
        },
    }
}

/// Parse a configuration document, accepting exactly the texts that
/// `parse_spec` gives a meaning: a present but malformed document is a
/// `ConfigParse` error, the one recoverable bootstrap failure.
#[verifier::loop_isolation(false)]
pub fn parse_config(s: &str) -> (r: Result<ConfigDocument, BootError>)
    ensures
        ({
            let sp = parse_spec(s@);
            match r {
                Ok(d) => sp == Some(d@),
                Err(e) => sp is None && e == BootError::ConfigParse,
            }
        }),
{
    let n: usize = s.unicode_len();
    let step1 = read_line_after(s, 0, "memos.mode=");
    if step1.is_none() {
        return Err(BootError::ConfigParse);
    }
    let (mode, p1) = step1.unwrap();
    let step2 = read_line_after(s, p1, "memos.addr=");
    if step2.is_none() {
        return Err(BootError::ConfigParse);
    }
    let (addr, p2) = step2.unwrap();
    let step3 = read_line_after(s, p2, "memos.port=");
    if step3.is_none() {
        return Err(BootError::ConfigParse);
    }
    let (pv, p3) = step3.unwrap();
    let port_opt = parse_u16(pv.as_str());
    if port_opt.is_none() {
        return Err(BootError::ConfigParse);
    }
    let port: u16 = port_opt.unwrap();
    let step4 = read_line_after(s, p3, "memos.telemetry=");
    if step4.is_none() {
        return Err(BootError::ConfigParse);
    }
    let (tv, p4) = step4.unwrap();
    let is_true: bool = str_eq(tv.as_str(), "true");
    let is_false: bool = str_eq(tv.as_str(), "false");
    if !is_true && !is_false {
        return Err(BootError::ConfigParse);
    }
    let telemetry: bool = is_true;
    let mut working_dir: Option<String> = None;
    let mut pos: usize = p4;
    if has_prefix_at(s, p4, "memos.working_dir=") {
        let step5 = read_line_after(s, p4, "memos.working_dir=");
        if step5.is_none() {
            return Err(BootError::ConfigParse);
        }
        let (w, p5) = step5.unwrap();
        working_dir = Some(w);
        pos = p5;
    }
    let ghost start = pos as int;
    let mut env: Vec<(String, String)> = Vec::new();
    proof {
        assert(env.deep_view() =~= Seq::<(Seq<char>, Seq<char>)>::empty());
    }
    while pos < n
        invariant
            pos <= n,
            n == s@.len(),
            start <= pos as int,
            ({
                match parse_env_spec(s@, pos as int) {
                    None => parse_env_spec(s@, start) is None,
                    Some(rest) => parse_env_spec(s@, start) == Some(env.deep_view() + rest),
                }
            }),
        decreases n - pos,
    {
        let stepe = read_line_after(s, pos, "memos.env.");
        if stepe.is_none() {
            return Err(BootError::ConfigParse);
        }
        let (kv, next) = stepe.unwrap();
        let kvs: &str = kv.as_str();
        let klen: usize = kvs.unicode_len();
        let eq: usize = find_char(kvs, 0, '=');
        if eq >= klen {
            return Err(BootError::ConfigParse);
        }
        let k: String = kvs.substring_char(0, eq).to_owned();
        let v: String = kvs.substring_char(eq + 1, klen).to_owned();
        let ghost before = env.deep_view();
        env.push((k, v));
        proof {
            assert(env.deep_view() =~= before + seq![(kv@.subrange(0, eq as int), kv@.subrange(
                eq as int + 1,
                kv@.len() as int,
            ))]);
            let rest0 = parse_env_spec(s@, pos as int);
            let rest1 = parse_env_spec(s@, next as int);
            if rest1 is Some {
                assert(before + rest0.unwrap() =~= env.deep_view() + rest1.unwrap());
            }
        }
        pos = next;
    }
    proof {
        assert(parse_env_spec(s@, pos as int) == Some(Seq::<(Seq<char>, Seq<char>)>::empty()));
        assert(env.deep_view() + Seq::<(Seq<char>, Seq<char>)>::empty() =~= env.deep_view());
    }
    let doc = ConfigDocument { mode, addr, port, telemetry, working_dir, env };
    proof {
        assert(parse_spec(s@) == Some(doc@));
    }
    Ok(doc)
}

/// A `key=value` line followed by anything parses back to its value.
proof fn lemma_parse_line_at(s: Seq<char>, pos: int, key: Seq<char>, value: Seq<char>)
    requires
        0 <= pos,
        pos + key.len() + value.len() + 1 <= s.len(),
        s.subrange(pos, pos + key.len() + value.len() + 1) == key + value + seq!['\n'],
        line_ok(value),
    ensures
        parse_line_after(s, pos, key) == Some(
            (value, pos + key.len() + value.len() + 1),
        ),
{
    let w = key + value + seq!['\n'];
    let vstart = pos + key.len();
    let target = vstart + value.len();
    let ll = key.len() + value.len() + 1;
    assert forall|i: int| 0 <= i < ll implies s[pos + i] == w[i] by {
        assert(s.subrange(pos, pos + ll)[i] == w[i]);
    }
    assert(s.subrange(pos, pos + key.len() as int) =~= key);
    assert(prefix_at(s, pos, key));
    assert forall|j: int| vstart <= j < target implies s[j] != '\n' by {
        assert(s[j] == w[j - pos]);
        assert(w[j - pos] == value[j - vstart]);
    }
    assert(s[target] == w[target - pos]);
    assert(w[target - pos] == '\n');
    lemma_find_from(s, vstart, '\n');
    let k = find_from(s, vstart, '\n');
    assert(k == target);
    assert forall|j: int| 0 <= j < value.len() implies s[vstart + j] == value[j] by {
        assert(s[pos + (key.len() + j)] == w[key.len() + j]);
    }
    assert(s.subrange(vstart, target) =~= value);
}

/// Splitting a `NAME=value` pair at its first `=` recovers name and value.
proof fn lemma_env_split(k: Seq<char>, v: Seq<char>)
    requires
        env_key_ok(k),
    ensures
        ({
            let w = k + seq!['='] + v;
            &&& find_from(w, 0, '=') == k.len()
            &&& w.subrange(0, k.len() as int) == k
            &&& w.subrange(k.len() as int + 1, w.len() as int) == v
        }),
{
    let w = k + seq!['='] + v;
    assert(w[k.len() as int] == '=');
    lemma_find_from(w, 0, '=');
    let f = find_from(w, 0, '=');
    assert forall|j: int| 0 <= j < k.len() implies w[j] != '=' by {
        assert(w[j] == k[j]);
    }
    assert(f == k.len());
    assert(w.subrange(0, k.len() as int) =~= k);
    assert(w.subrange(k.len() as int + 1, w.len() as int) =~= v);
}

/// The serialized environment lines parse back to the entries, in order.
proof fn lemma_parse_env_roundtrip(s: Seq<char>, pos: int, env: Seq<(Seq<char>, Seq<char>)>)
    requires
        0 <= pos <= s.len(),
        s.len() == pos + ser_env(env).len(),
        s.subrange(pos, s.len() as int) == ser_env(env),
        env_entries_ok(env),
    ensures
        parse_env_spec(s, pos) == Some(env),
    decreases env.len(),
{
    if env.len() == 0 {
        assert(pos == s.len());
    } else {
        let k = env[0].0;
        let v = env[0].1;
        let value = k + seq!['='] + v;
        let rest = env.drop_first();
        let line = env_line(k, v);
        assert(line =~= k_env() + value + seq!['\n']);
        let next = pos + k_env().len() + value.len() + 1;
        assert(ser_env(env) == line + ser_env(rest));
        assert(s.subrange(pos, next) =~= k_env() + value + seq!['\n']);
        assert forall|j: int| 0 <= j < value.len() implies #[trigger] value[j] != '\n' by {
            assert(env_key_ok(k) && line_ok(v));
            if j < k.len() {
                assert(value[j] == k[j]);
            } else if j == k.len() {
                assert(value[j] == '=');
            } else {
                assert(value[j] == v[j - k.len() - 1]);
            }
        }
        lemma_parse_line_at(s, pos, k_env(), value);
        lemma_env_split(k, v);
        let se = ser_env(env);
        assert forall|i: int| 0 <= i < se.len() implies s[pos + i] == se[i] by {
            assert(s.subrange(pos, s.len() as int)[i] == se[i]);
        }
        assert forall|j: int| 0 <= j < ser_env(rest).len() implies s.subrange(
            next,
            s.len() as int,
        )[j] == ser_env(rest)[j] by {
            assert(se[(next - pos) + j] == ser_env(rest)[j]);
            assert(s[next + j] == se[(next - pos) + j]);
        }
        assert(s.subrange(next, s.len() as int) =~= ser_env(rest));
        assert forall|i: int|
            0 <= i < rest.len() implies env_key_ok(#[trigger] rest[i].0) && line_ok(
            rest[i].1,
        ) by {
            assert(rest[i] == env[i + 1]);
        }
        lemma_parse_env_roundtrip(s, next, rest);
        assert(parse_env_spec(s, pos) == Some(seq![(k, v)] + rest));
        assert(seq![(k, v)] + rest =~= env);
    }
}

/// `"true"` and `"false"` fit on a line and differ from each other.
proof fn lemma_bool_str(b: bool)
    ensures
        line_ok(bool_str(b)),
        (bool_str(b) == "true"@) == b,
        b || bool_str(b) == "false"@,
{
    reveal_strlit("true");
    reveal_strlit("false");
    assert(("true")@.len() == 4);
    assert(("false")@.len() == 5);
    assert forall|i: int| 0 <= i < "true"@.len() implies #[trigger] "true"@[i] != '\n' by {}
    assert forall|i: int| 0 <= i < "false"@.len() implies #[trigger] "false"@[i] != '\n' by {}
}

/// Splitting a suffix of `s` known to be `part + rest` yields both pieces.
proof fn lemma_chop(s: Seq<char>, pos: int, part: Seq<char>, rest: Seq<char>)
    requires
        0 <= pos <= s.len(),
        s.len() == pos + part.len() + rest.len(),
        s.subrange(pos, s.len() as int) == part + rest,
    ensures
        s.subrange(pos, pos + part.len()) == part,
        s.subrange(pos + part.len(), s.len() as int) == rest,
{
    let tail = s.subrange(pos, s.len() as int);
    assert forall|i: int| 0 <= i < tail.len() implies s[pos + i] == (part + rest)[i] by {
        assert(tail[i] == (part + rest)[i]);
    }
    assert(s.subrange(pos, pos + part.len()) =~= part);
    assert forall|j: int| 0 <= j < rest.len() implies s.subrange(
        pos + part.len(),
        s.len() as int,
    )[j] == rest[j] by {
        assert(s[pos + (part.len() + j)] == (part + rest)[part.len() + j]);
    }
    assert(s.subrange(pos + part.len(), s.len() as int) =~= rest);
}

/// A document suffix made of environment lines does not start with the
/// working-directory key.
proof fn lemma_env_not_wd(s: Seq<char>, pos: int, env: Seq<(Seq<char>, Seq<char>)>)
    requires
        0 <= pos <= s.len(),
        s.len() == pos + ser_env(env).len(),
        s.subrange(pos, s.len() as int) == ser_env(env),
    ensures
        !prefix_at(s, pos, k_working_dir()),
{
    reveal_strlit("memos.working_dir=");
    reveal_strlit("memos.env.");
    assert(k_working_dir().len() == 18);
    if env.len() == 0 {
        assert(pos == s.len());
    } else {
        let line = env_line(env[0].0, env[0].1);
        assert(ser_env(env) == line + ser_env(env.drop_first()));
        assert(k_env().len() == 10);
        assert(line[6] == k_env()[6]);
        assert(ser_env(env)[6] == line[6]);
        assert(s.subrange(pos, s.len() as int)[6] == ser_env(env)[6]);
        assert(s[pos + 6] == ser_env(env)[6]);
        assert(k_env()[6] == 'e');
        assert(k_working_dir()[6] == 'w');
        if prefix_at(s, pos, k_working_dir()) {
            assert(s.subrange(pos, pos + 18)[6] == k_working_dir()[6]);
            assert(s[pos + 6] == 'w');
            assert(false);
        }
    }
}

/// Position after the mode line of the serialized form of `c`.
pub open spec fn pos1(c: ConfigData) -> int {
    line_of(k_mode(), c.mode).len() as int
}

/// Position after the address line.
pub open spec fn pos2(c: ConfigData) -> int {
    pos1(c) + line_of(k_addr(), c.addr).len()
}

/// Position after the port line.
pub open spec fn pos3(c: ConfigData) -> int {
    pos2(c) + line_of(k_port(), dec_spec(c.port as int)).len()
}

/// Position after the telemetry line.
pub open spec fn pos4(c: ConfigData) -> int {
    pos3(c) + line_of(k_telemetry(), bool_str(c.telemetry)).len()
}

/// Position after the optional working-directory line.
pub open spec fn pos5(c: ConfigData) -> int {
    pos4(c) + (match c.working_dir {
        Some(w) => line_of(k_working_dir(), w).len() as int,
        None => 0,
    })
}

/// Each line of a serialized document parses back to the field it was
/// rendered from.
#[verifier::spinoff_prover]
#[verifier::rlimit(100)]
proof fn lemma_parse_header(c: ConfigData)
    requires
        valid_config(c),
    ensures
        ({
            let s = ser_spec(c);
            &&& parse_line_after(s, 0, k_mode()) == Some((c.mode, pos1(c)))
            &&& parse_line_after(s, pos1(c), k_addr()) == Some((c.addr, pos2(c)))
            &&& parse_line_after(s, pos2(c), k_port()) == Some(
                (dec_spec(c.port as int), pos3(c)),
            )
            &&& parse_line_after(s, pos3(c), k_telemetry()) == Some(
                (bool_str(c.telemetry), pos4(c)),
            )
            &&& (match c.working_dir {
                Some(w) => parse_line_after(s, pos4(c), k_working_dir()) == Some((w, pos5(c))),
                None => !prefix_at(s, pos4(c), k_working_dir()),
            })
            &&& parse_env_spec(s, pos5(c)) == Some(c.env)
        }),
{
    let s = ser_spec(c);
    let pv = dec_spec(c.port as int);
    let tv = bool_str(c.telemetry);
    let a1 = line_of(k_mode(), c.mode);
    let a2 = line_of(k_addr(), c.addr);
    let a3 = line_of(k_port(), pv);
    let a4 = line_of(k_telemetry(), tv);
    let a5 = match c.working_dir {
        Some(w) => line_of(k_working_dir(), w),
        None => Seq::<char>::empty(),
    };
    let a6 = ser_env(c.env);
    let r5 = a5 + a6;
    let r4 = a4 + r5;
    let r3 = a3 + r4;
    let r2 = a2 + r3;
    let r1 = a1 + r2;
    assert(s == r1);
    let p1 = a1.len() as int;
    let p2 = p1 + a2.len();
    let p3 = p2 + a3.len();
    let p4 = p3 + a4.len();
    let p5 = p4 + a5.len();

    crate::text::lemma_dec_roundtrip(c.port as int);
    assert forall|i: int| 0 <= i < pv.len() implies #[trigger] pv[i] != '\n' by {
        assert(crate::text::is_digit(pv[i]));
    }
    lemma_bool_str(c.telemetry);

    assert(s.subrange(0, s.len() as int) =~= r1);
    lemma_chop(s, 0, a1, r2);
    lemma_parse_line_at(s, 0, k_mode(), c.mode);
    lemma_chop(s, p1, a2, r3);
    lemma_parse_line_at(s, p1, k_addr(), c.addr);
    lemma_chop(s, p2, a3, r4);
    lemma_parse_line_at(s, p2, k_port(), pv);
    lemma_chop(s, p3, a4, r5);
    lemma_parse_line_at(s, p3, k_telemetry(), tv);
    lemma_chop(s, p4, a5, a6);

    match c.working_dir {
        Some(w) => {
            lemma_parse_line_at(s, p4, k_working_dir(), w);
            lemma_parse_env_roundtrip(s, p5, c.env);
        },
        None => {
            assert(p4 == p5);
            lemma_env_not_wd(s, p4, c.env);
            lemma_parse_env_roundtrip(s, p4, c.env);
        },
    }
}

/// Round trip: saving a configuration document and loading it back yields
/// the document that was saved, for every valid field combination.
#[verifier::spinoff_prover]
pub proof fn lemma_config_roundtrip(c: ConfigData)
    requires
        valid_config(c),
    ensures
        parse_spec(ser_spec(c)) == Some(c),
{
    lemma_parse_header(c);
    crate::text::lemma_dec_roundtrip(c.port as int);
    lemma_bool_str(c.telemetry);
    let s = ser_spec(c);
    assert(parse_spec(s).unwrap() =~= c);
}

/// After a reset, loading succeeds and yields the default document.
pub proof fn lemma_reset_then_load()
    ensures
        parse_spec(ser_spec(default_config())) == Some(default_config()),
{
    lemma_default_valid();
    lemma_config_roundtrip(default_config());
}

} // verus!
