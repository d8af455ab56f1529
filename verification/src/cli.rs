//! Managing sites from the command line: what a command writes and reports.
use crate::access::{address_in, parse_address};
use crate::numeral::{hex, hex_char, hex_text, hex_value};
use crate::paths::{join_path, path_below};
use crate::sites::{SiteConfig, SiteKind, SiteTls};
use crate::text::{
    chars_of, ends, ends_with, head, is_text, lemma_head, maybe, maybe_string, starts, texts,
};
use vstd::prelude::*;
use vstd::string::StringExecFns;

verus! {

/// What a document root holds, as far as its kind depends on it.
#[derive(Debug, Clone, Copy, PartialEq, Eq, Structural)]
pub struct SiteLayout {
    /// Whether `composer.json` exists.
    pub has_composer_json: bool,
    /// Whether `public` is a directory.
    pub has_public_dir: bool,
    /// Whether `index.php` exists.
    pub has_index_php: bool,
}

/// The kind that a layout suggests.
pub open spec fn suggested_kind(layout: SiteLayout) -> SiteKind {
    if (layout.has_composer_json && layout.has_public_dir) || layout.has_index_php {
        SiteKind::Php
    } else {
        SiteKind::Static
    }
}

/// The kind of site that a directory layout suggests: PHP where there is
/// `composer.json` with `public`, or `index.php`; static files otherwise.
pub fn detect_kind(layout: SiteLayout) -> (r: SiteKind)
    ensures
        r == suggested_kind(layout),
{
    if layout.has_composer_json && layout.has_public_dir {
        return SiteKind::Php;
    }
    if layout.has_index_php {
        return SiteKind::Php;
    }
    SiteKind::Static
}

/// Whether a domain is local: `localhost`, a name below `.local` or `.test`,
/// or an address.
pub open spec fn local_name(domain: Seq<char>, is_address: bool) -> bool {
    domain == "localhost"@ || ends(domain, ".local"@) || ends(domain, ".test"@) || is_address
}

/// Whether a domain is local, given whether it reads as an address.
pub fn is_local_name(domain: &str, is_address: bool) -> (r: bool)
    ensures
        r == local_name(domain@, is_address),
{
    let chars = chars_of(domain);
    let local = chars_of(".local");
    let test = chars_of(".test");
    is_text(chars.as_slice(), "localhost") || ends_with(chars.as_slice(), local.as_slice())
        || ends_with(chars.as_slice(), test.as_slice()) || is_address
}

/// Whether a domain is local, so that no certificate is obtained for it.
pub fn is_local(domain: &str) -> (r: bool)
    ensures
        r == local_name(domain@, address_in(domain@) is Some),
{
    let address = parse_address(domain);
    is_local_name(domain, address.is_some())
}

/// Whether a character may not stand in a TOML basic string: a control
/// character other than the tab.
pub open spec fn is_control(c: char) -> bool {
    (c as u32) < 0x20 && c != '\t' || c as u32 == 0x7f
}

/// A character inside a TOML basic string: backslash and quote are escaped,
/// and a control character is written by its code point.
pub open spec fn escaped_char(c: char) -> Seq<char> {
    if c == '\\' || c == '"' {
        seq!['\\', c]
    } else if is_control(c) {
        seq!['\\', 'u'] + hex_text(c as u32 as nat, 4)
    } else {
        seq![c]
    }
}

/// A text inside a TOML basic string.
pub open spec fn escaped(s: Seq<char>) -> Seq<char>
    decreases s.len(),
{
    if s.len() == 0 {
        Seq::empty()
    } else {
        escaped(s.drop_last()) + escaped_char(s.last())
    }
}

/// Escapes a string for use inside a TOML basic string.
pub fn toml_escape(s: &str) -> (r: String)
    ensures
        r@ == escaped(s@),
{
    let chars = chars_of(s);
    let mut out = String::new();
    let mut i: usize = 0;
    while i < chars.len()
        invariant
            i <= chars.len(),
            chars@ == s@,
            out@ == escaped(s@.take(i as int)),
        decreases chars.len() - i,
    {
        let c = chars[i];
        let ghost front = out@;
        assert(s@.take(i + 1).drop_last() =~= s@.take(i as int));
        let code: u32 = c as u32;
        if c == '\\' || c == '"' {
            out.push('\\');
            out.push(c);
        } else if (code < 0x20 && c != '\t') || code == 0x7f {
            out.push('\\');
            out.push('u');
            let digits = hex(code as u64, 4);
            out.append(digits.as_str());
            assert(is_control(c));
            assert(digits@ == hex_text(c as u32 as nat, 4));
            assert(out@ =~= front + escaped_char(c));
        } else {
            out.push(c);
            assert(!is_control(c));
        }
        assert(out@ =~= front + escaped_char(c));
        i = i + 1;
    }
    assert(s@.take(i as int) =~= s@);
    out
}

/// The character whose code point four hexadecimal digits give.
pub open spec fn code_point(d: Seq<char>) -> Option<char> {
    match (hex_value(d[0]), hex_value(d[1]), hex_value(d[2]), hex_value(d[3])) {
        (Some(a), Some(b), Some(c), Some(e)) => {
            let n = a * 4096 + b * 256 + c * 16 + e;
            if n < 0xd800 || n >= 0xe000 {
                Some((n as u32) as char)
            } else {
                None
            }
        },
        _ => None,
    }
}

/// Reads the rest of a TOML basic string: the text up to the closing quote, and
/// what follows it. Of the escapes it knows those of the backslash, the quote
/// and a code point in four digits. A control character does not stand in a
/// string as it is.
pub open spec fn read_quoted(s: Seq<char>) -> Option<(Seq<char>, Seq<char>)>
    decreases s.len(),
{
    if s.len() == 0 || is_control(s[0]) {
        None
    } else if s[0] == '"' {
        Some((Seq::empty(), s.skip(1)))
    } else if s[0] == '\\' {
        if s.len() >= 2 && (s[1] == '\\' || s[1] == '"') {
            match read_quoted(s.skip(2)) {
                Some((text, rest)) => Some((seq![s[1]] + text, rest)),
                None => None,
            }
        } else if s.len() >= 6 && s[1] == 'u' && code_point(s.subrange(2, 6)) is Some {
            match read_quoted(s.skip(6)) {
                Some((text, rest)) => Some((seq![code_point(s.subrange(2, 6))->0] + text, rest)),
                None => None,
            }
        } else {
            None
        }
    } else {
        match read_quoted(s.skip(1)) {
            Some((text, rest)) => Some((seq![s[0]] + text, rest)),
            None => None,
        }
    }
}

/// The digits of a control character give its code point.
proof fn lemma_code_point(c: char)
    requires
        is_control(c),
    ensures
        hex_text(c as u32 as nat, 4).len() == 4,
        code_point(hex_text(c as u32 as nat, 4)) == Some(c),
{
    let n = c as u32 as nat;
    reveal_with_fuel(hex_text, 5);
    assert(n / 16 / 16 == 0);
    assert(n / 16 < 8);
    assert(n == 16 * (n / 16) + n % 16);
    let d = hex_text(n, 4);
    assert(d[0] == '0' && d[1] == '0');
    assert(d[2] == hex_char(n / 16) && d[3] == hex_char(n % 16));
    assert(hex_value(d[2]) == Some(n / 16));
    assert(hex_value(d[3]) == Some(n % 16));
}

/// Escaping begins with the first character, as it ends with the last.
proof fn lemma_escaped_front(s: Seq<char>)
    requires
        s.len() > 0,
    ensures
        escaped(s) == escaped_char(s[0]) + escaped(s.skip(1)),
    decreases s.len(),
{
    if s.len() == 1 {
        assert(s.drop_last() =~= Seq::<char>::empty());
        assert(s.skip(1) =~= Seq::<char>::empty());
        assert(escaped(s) =~= escaped_char(s[0]) + escaped(s.skip(1)));
    } else {
        let front = s.drop_last();
        lemma_escaped_front(front);
        assert(front.skip(1) =~= s.skip(1).drop_last());
        assert(escaped(s) =~= escaped_char(s[0]) + (escaped(front.skip(1)) + escaped_char(
            s.last(),
        )));
    }
}

/// Whatever characters a value holds, the string it is written as holds no
/// control character, ends at its own closing quote and reads back as the
/// value.
pub proof fn law_quoted_reads_back(text: Seq<char>, rest: Seq<char>)
    ensures
        read_quoted(escaped(text).push('"') + rest) == Some((text, rest)),
    decreases text.len(),
{
    let whole = escaped(text).push('"') + rest;
    if text.len() == 0 {
        assert(whole[0] == '"');
        assert(whole.skip(1) =~= rest);
        assert(text =~= Seq::<char>::empty());
    } else {
        let more = text.skip(1);
        lemma_escaped_front(text);
        law_quoted_reads_back(more, rest);
        let tail = escaped(more).push('"') + rest;
        let c = text[0];
        assert(whole =~= escaped_char(c) + tail);
        if c == '\\' || c == '"' {
            assert(whole.skip(2) =~= tail);
        } else if is_control(c) {
            lemma_code_point(c);
            assert(whole.subrange(2, 6) =~= hex_text(c as u32 as nat, 4));
            assert(whole.skip(6) =~= tail);
        } else {
            assert(whole.skip(1) =~= tail);
        }
        assert(seq![c] + more =~= text);
    }
}

/// The name of a kind in a site file.
pub open spec fn kind_name(kind: SiteKind) -> Seq<char> {
    match kind {
        SiteKind::Static => "static"@,
        SiteKind::Php => "php"@,
        SiteKind::App => "app"@,
    }
}

/// The name of a kind in a site file.
fn kind_str(kind: SiteKind) -> (r: &'static str)
    ensures
        r@ == kind_name(kind),
{
    match kind {
        SiteKind::Static => "static",
        SiteKind::Php => "php",
        SiteKind::App => "app",
    }
}

/// A line of a site file: a name and a quoted value.
pub open spec fn quoted_line(name: Seq<char>, value: Seq<char>) -> Seq<char> {
    name + " = \""@ + escaped(value) + "\"\n"@
}

/// The line of a value that may be absent.
pub open spec fn optional_line(name: Seq<char>, value: Option<Seq<char>>) -> Seq<char> {
    match value {
        Some(text) => quoted_line(name, text),
        None => Seq::empty(),
    }
}

/// The text of a site file.
pub open spec fn site_toml(
    domain: Seq<char>,
    root: Seq<char>,
    kind: SiteKind,
    tls_off: bool,
    app: Option<Seq<char>>,
    php_fpm: Option<Seq<char>>,
) -> Seq<char> {
    quoted_line("domain"@, domain) + quoted_line("root"@, root) + quoted_line(
        "type"@,
        kind_name(kind),
    ) + quoted_line(
        "tls"@,
        if tls_off {
            "off"@
        } else {
            "auto"@
        },
    ) + optional_line("app"@, app) + optional_line("php_fpm"@, php_fpm)
}

/// The value of a line: a quoted text, or `true` or `false`.
pub enum LineValue {
    Text(Seq<char>),
    Flag(bool),
}

/// A line: a name and its value.
pub type Line = (Seq<char>, LineValue);

/// The end of a line that gives a flag.
pub open spec fn flag_end(flag: bool) -> Seq<char> {
    if flag {
        " = true\n"@
    } else {
        " = false\n"@
    }
}

/// Reads lines that each give a name, ` = ` and a value.
pub open spec fn read_lines(s: Seq<char>) -> Option<Seq<Line>>
    decreases s.len(),
{
    if s.len() == 0 {
        Some(Seq::empty())
    } else {
        let name = head(s, ' ');
        let behind = s.skip(name.len() as int);
        if name.len() + 8 <= s.len() && starts(behind, flag_end(true)) {
            match read_lines(behind.skip(8)) {
                Some(more) => Some(seq![(name, LineValue::Flag(true))] + more),
                None => None,
            }
        } else if name.len() + 9 <= s.len() && starts(behind, flag_end(false)) {
            match read_lines(behind.skip(9)) {
                Some(more) => Some(seq![(name, LineValue::Flag(false))] + more),
                None => None,
            }
        } else if starts(behind, " = \""@) {
            match read_quoted(behind.skip(4)) {
                Some((value, rest)) => if 0 < rest.len() < s.len() && rest[0] == '\n' {
                    match read_lines(rest.skip(1)) {
                        Some(more) => Some(seq![(name, LineValue::Text(value))] + more),
                        None => None,
                    }
                } else {
                    None
                },
                None => None,
            }
        } else {
            None
        }
    }
}

/// What a site file says.
#[verifier::ext_equal]
pub struct SiteText {
    pub domain: Seq<char>,
    pub root: Seq<char>,
    pub kind: SiteKind,
    pub tls: SiteTls,
    pub app: Option<Seq<char>>,
    pub php_fpm: Option<Seq<char>>,
    pub enabled: bool,
}

/// What the file of a site says.
pub open spec fn site_text(site: SiteConfig) -> SiteText {
    SiteText {
        domain: site.domain@,
        root: site.root@,
        kind: site.kind,
        tls: site.tls,
        app: maybe_string(site.app),
        php_fpm: maybe_string(site.php_fpm),
        enabled: site.enabled,
    }
}

/// The name of a certificate setting in a site file.
pub open spec fn tls_name(tls: SiteTls) -> Seq<char> {
    match tls {
        SiteTls::Auto => "auto"@,
        SiteTls::Off => "off"@,
    }
}

/// Whether the lines give the name a value.
pub open spec fn gives(lines: Seq<Line>, name: Seq<char>, value: LineValue) -> bool {
    exists|i: int| 0 <= i < lines.len() && #[trigger] lines[i] == (name, value)
}

/// Whether the lines mention the name.
pub open spec fn mentions(lines: Seq<Line>, name: Seq<char>) -> bool {
    exists|i: int| 0 <= i < lines.len() && (#[trigger] lines[i]).0 == name
}

/// Whether the lines give the name this text, or do not mention it where there
/// is none.
pub open spec fn gives_optional(
    lines: Seq<Line>,
    name: Seq<char>,
    value: Option<Seq<char>>,
) -> bool {
    match value {
        Some(text) => gives(lines, name, LineValue::Text(text)),
        None => !mentions(lines, name),
    }
}

/// Whether a name is one that a site file may use.
pub open spec fn known_name(name: Seq<char>) -> bool {
    name == "domain"@ || name == "root"@ || name == "type"@ || name == "tls"@ || name == "app"@
        || name == "php_fpm"@ || name == "enabled"@
}

/// Whether every name is known and used once.
pub open spec fn well_named(lines: Seq<Line>) -> bool {
    &&& forall|i: int| 0 <= i < lines.len() ==> known_name((#[trigger] lines[i]).0)
    &&& forall|i: int, j: int|
        0 <= i < j < lines.len() ==> (#[trigger] lines[i]).0 != (#[trigger] lines[j]).0
}

/// Whether a site file reads as a site: it names the domain, the root and the
/// kind; a certificate is wanted and the site enabled unless it says otherwise;
/// an upstream that is absent is not mentioned.
pub open spec fn reads_as(file: Seq<char>, site: SiteText) -> bool {
    &&& read_lines(file) matches Some(lines)
    &&& well_named(lines)
    &&& gives(lines, "domain"@, LineValue::Text(site.domain))
    &&& gives(lines, "root"@, LineValue::Text(site.root))
    &&& gives(lines, "type"@, LineValue::Text(kind_name(site.kind)))
    &&& gives(lines, "tls"@, LineValue::Text(tls_name(site.tls))) || (!mentions(lines, "tls"@)
        && site.tls == SiteTls::Auto)
    &&& gives_optional(lines, "app"@, site.app)
    &&& gives_optional(lines, "php_fpm"@, site.php_fpm)
    &&& gives(lines, "enabled"@, LineValue::Flag(site.enabled)) || (!mentions(lines, "enabled"@)
        && site.enabled)
}

proof fn lemma_gives_one(lines: Seq<Line>, name: Seq<char>, a: LineValue, b: LineValue)
    requires
        well_named(lines),
        gives(lines, name, a),
        gives(lines, name, b),
    ensures
        a == b,
{
    let i = choose|i: int| 0 <= i < lines.len() && #[trigger] lines[i] == (name, a);
    let j = choose|j: int| 0 <= j < lines.len() && #[trigger] lines[j] == (name, b);
    if i < j {
        assert(lines[i].0 != lines[j].0);
    } else if j < i {
        assert(lines[j].0 != lines[i].0);
    }
}

proof fn lemma_gives_mentions(lines: Seq<Line>, name: Seq<char>, value: LineValue)
    requires
        gives(lines, name, value),
    ensures
        mentions(lines, name),
{
    let i = choose|i: int| 0 <= i < lines.len() && #[trigger] lines[i] == (name, value);
    assert(lines[i].0 == name);
}

proof fn lemma_optional_one(
    lines: Seq<Line>,
    name: Seq<char>,
    a: Option<Seq<char>>,
    b: Option<Seq<char>>,
)
    requires
        well_named(lines),
        gives_optional(lines, name, a),
        gives_optional(lines, name, b),
    ensures
        a == b,
{
    match (a, b) {
        (Some(x), Some(y)) => {
            lemma_gives_one(lines, name, LineValue::Text(x), LineValue::Text(y));
        },
        (Some(x), None) => {
            lemma_gives_mentions(lines, name, LineValue::Text(x));
        },
        (None, Some(y)) => {
            lemma_gives_mentions(lines, name, LineValue::Text(y));
        },
        (None, None) => {},
    }
}

/// A site file reads as one site at most.
pub proof fn law_file_reads_as_one_site(file: Seq<char>, a: SiteText, b: SiteText)
    requires
        reads_as(file, a),
        reads_as(file, b),
    ensures
        a == b,
{
    let lines = read_lines(file)->0;
    lemma_gives_one(lines, "domain"@, LineValue::Text(a.domain), LineValue::Text(b.domain));
    lemma_gives_one(lines, "root"@, LineValue::Text(a.root), LineValue::Text(b.root));
    lemma_gives_one(
        lines,
        "type"@,
        LineValue::Text(kind_name(a.kind)),
        LineValue::Text(kind_name(b.kind)),
    );
    assert(a.kind == b.kind) by {
        reveal_strlit("static");
        reveal_strlit("php");
        reveal_strlit("app");
        assert("php"@[0] != "app"@[0]);
    }
    let x = LineValue::Text(tls_name(a.tls));
    let y = LineValue::Text(tls_name(b.tls));
    assert(a.tls == b.tls) by {
        if gives(lines, "tls"@, x) {
            lemma_gives_mentions(lines, "tls"@, x);
            lemma_gives_one(lines, "tls"@, x, y);
        } else if gives(lines, "tls"@, y) {
            lemma_gives_mentions(lines, "tls"@, y);
        }
        reveal_strlit("auto");
        reveal_strlit("off");
        assert("auto"@.len() == 4 && "off"@.len() == 3);
        assert(tls_name(a.tls) == tls_name(b.tls));
    }
    lemma_optional_one(lines, "app"@, a.app, b.app);
    lemma_optional_one(lines, "php_fpm"@, a.php_fpm, b.php_fpm);
    let u = LineValue::Flag(a.enabled);
    let v = LineValue::Flag(b.enabled);
    if gives(lines, "enabled"@, u) {
        lemma_gives_mentions(lines, "enabled"@, u);
        lemma_gives_one(lines, "enabled"@, u, v);
    } else if gives(lines, "enabled"@, v) {
        lemma_gives_mentions(lines, "enabled"@, v);
    }
}

/// A value that may be absent, under its name.
spec fn optional_pair(name: Seq<char>, value: Option<Seq<char>>) -> Seq<Line> {
    match value {
        Some(text) => seq![(name, LineValue::Text(text))],
        None => Seq::empty(),
    }
}

/// The lines of a site file.
spec fn site_lines(
    domain: Seq<char>,
    root: Seq<char>,
    kind: SiteKind,
    tls: SiteTls,
    app: Option<Seq<char>>,
    php_fpm: Option<Seq<char>>,
    end: Seq<Line>,
) -> Seq<Line> {
    seq![("domain"@, LineValue::Text(domain))] + seq![("root"@, LineValue::Text(root))] + seq![
        ("type"@, LineValue::Text(kind_name(kind))),
    ] + seq![("tls"@, LineValue::Text(tls_name(tls)))] + optional_pair("app"@, app)
        + optional_pair("php_fpm"@, php_fpm) + end
}

/// A line that was written is read back, and then the lines behind it.
proof fn lemma_line_reads_back(name: Seq<char>, value: Seq<char>, more: Seq<char>)
    requires
        !name.contains(' '),
    ensures
        read_lines(quoted_line(name, value) + more) == match read_lines(more) {
            Some(list) => Some(seq![(name, LineValue::Text(value))] + list),
            None => None,
        },
{
    reveal_strlit(" = \"");
    reveal_strlit("\"\n");
    reveal_strlit(" = true\n");
    reveal_strlit(" = false\n");
    let whole = quoted_line(name, value) + more;
    let n = name.len() as int;
    assert forall|j: int| 0 <= j < n implies whole[j] != ' ' by {
        assert(whole[j] == name[j]);
        assert(name.contains(name[j]));
    }
    assert(whole[n] == ' ');
    lemma_head(whole, ' ', n);
    assert(whole.take(n) =~= name);
    let behind = whole.skip(n);
    assert(behind[3] == '"');
    assert(!starts(behind, flag_end(true))) by {
        assert(flag_end(true)[3] == 't');
        if starts(behind, flag_end(true)) {
            assert(behind.take(8)[3] == behind[3]);
        }
    }
    assert(!starts(behind, flag_end(false))) by {
        assert(flag_end(false)[3] == 'f');
        if starts(behind, flag_end(false)) {
            assert(behind.take(9)[3] == behind[3]);
        }
    }
    assert(behind.take(4) =~= " = \""@);
    let rest = seq!['\n'] + more;
    assert(behind.skip(4) =~= escaped(value).push('"') + rest);
    law_quoted_reads_back(value, rest);
    assert(rest.skip(1) =~= more);
}

/// The last line, which tells whether a site is enabled, is read back.
proof fn lemma_flag_reads_back(flag: bool)
    ensures
        read_lines("enabled"@ + flag_end(flag)) == Some(
            seq![("enabled"@, LineValue::Flag(flag))],
        ),
{
    reveal_strlit("enabled");
    reveal_strlit(" = true\n");
    reveal_strlit(" = false\n");
    let whole = "enabled"@ + flag_end(flag);
    assert forall|j: int| 0 <= j < 7 implies whole[j] != ' ' by {
        assert(whole[j] == "enabled"@[j]);
    }
    assert(whole[7] == ' ');
    lemma_head(whole, ' ', 7);
    assert(whole.take(7) =~= "enabled"@);
    let behind = whole.skip(7);
    assert(behind =~= flag_end(flag));
    assert(behind.take(behind.len() as int) =~= behind);
    if !flag {
        assert(!starts(behind, flag_end(true))) by {
            if starts(behind, flag_end(true)) {
                assert(behind.take(8)[3] == behind[3]);
            }
        }
    }
    let rest = behind.skip(behind.len() as int);
    assert(rest =~= Seq::<char>::empty());
    assert(read_lines(rest) == Some(Seq::<Line>::empty()));
    assert(seq![("enabled"@, LineValue::Flag(flag))] + Seq::<Line>::empty() =~= seq![
        ("enabled"@, LineValue::Flag(flag)),
    ]);
}

proof fn lemma_site_lines(
    domain: Seq<char>,
    root: Seq<char>,
    kind: SiteKind,
    tls: SiteTls,
    app: Option<Seq<char>>,
    php_fpm: Option<Seq<char>>,
    rest: Seq<char>,
    end: Seq<Line>,
)
    requires
        read_lines(rest) == Some(end),
    ensures
        read_lines(
            site_toml(domain, root, kind, tls == SiteTls::Off, app, php_fpm) + rest,
        ) == Some(site_lines(domain, root, kind, tls, app, php_fpm, end)),
{
    lemma_names_hold_no_space();
    let l6 = optional_line("php_fpm"@, php_fpm) + rest;
    let l5 = optional_line("app"@, app) + l6;
    let l4 = quoted_line("tls"@, tls_name(tls)) + l5;
    let l3 = quoted_line("type"@, kind_name(kind)) + l4;
    let l2 = quoted_line("root"@, root) + l3;
    let l1 = quoted_line("domain"@, domain) + l2;
    let t6 = optional_pair("php_fpm"@, php_fpm) + end;
    let t5 = optional_pair("app"@, app) + t6;
    let t4 = seq![("tls"@, LineValue::Text(tls_name(tls)))] + t5;
    let t3 = seq![("type"@, LineValue::Text(kind_name(kind)))] + t4;
    let t2 = seq![("root"@, LineValue::Text(root))] + t3;
    let t1 = seq![("domain"@, LineValue::Text(domain))] + t2;
    lemma_optional_line_reads_back("php_fpm"@, php_fpm, rest, end);
    lemma_optional_line_reads_back("app"@, app, l6, t6);
    lemma_line_reads_back("tls"@, tls_name(tls), l5);
    lemma_line_reads_back("type"@, kind_name(kind), l4);
    lemma_line_reads_back("root"@, root, l3);
    lemma_line_reads_back("domain"@, domain, l2);
    assert(read_lines(l1) == Some(t1));
    lemma_regrouped(
        quoted_line("domain"@, domain),
        quoted_line("root"@, root),
        quoted_line("type"@, kind_name(kind)),
        quoted_line("tls"@, tls_name(tls)),
        optional_line("app"@, app),
        optional_line("php_fpm"@, php_fpm),
        rest,
    );
    lemma_regrouped(
        seq![("domain"@, LineValue::Text(domain))],
        seq![("root"@, LineValue::Text(root))],
        seq![("type"@, LineValue::Text(kind_name(kind)))],
        seq![("tls"@, LineValue::Text(tls_name(tls)))],
        optional_pair("app"@, app),
        optional_pair("php_fpm"@, php_fpm),
        end,
    );
}

/// Concatenation may be grouped from either end.
proof fn lemma_regrouped<T>(
    a: Seq<T>,
    b: Seq<T>,
    c: Seq<T>,
    d: Seq<T>,
    e: Seq<T>,
    f: Seq<T>,
    g: Seq<T>,
)
    ensures
        a + (b + (c + (d + (e + (f + g))))) == a + b + c + d + e + f + g,
{
    assert(a + (b + (c + (d + (e + (f + g))))) =~= a + b + c + d + e + f + g);
}

/// The lines of a site file say what the site is, whatever stands at their end.
proof fn lemma_lines_give(site: SiteText, flag: Option<bool>)
    requires
        site.enabled == match flag {
            Some(b) => b,
            None => true,
        },
    ensures
        ({
            let end = match flag {
                Some(b) => seq![("enabled"@, LineValue::Flag(b))],
                None => Seq::<Line>::empty(),
            };
            let lines = site_lines(
                site.domain,
                site.root,
                site.kind,
                site.tls,
                site.app,
                site.php_fpm,
                end,
            );
            &&& well_named(lines)
            &&& gives(lines, "domain"@, LineValue::Text(site.domain))
            &&& gives(lines, "root"@, LineValue::Text(site.root))
            &&& gives(lines, "type"@, LineValue::Text(kind_name(site.kind)))
            &&& gives(lines, "tls"@, LineValue::Text(tls_name(site.tls)))
            &&& gives_optional(lines, "app"@, site.app)
            &&& gives_optional(lines, "php_fpm"@, site.php_fpm)
            &&& gives(lines, "enabled"@, LineValue::Flag(site.enabled)) || (!mentions(
                lines,
                "enabled"@,
            ) && site.enabled)
        }),
{
    lemma_names_differ();
    let end = match flag {
        Some(b) => seq![("enabled"@, LineValue::Flag(b))],
        None => Seq::<Line>::empty(),
    };
    let lines = site_lines(
        site.domain,
        site.root,
        site.kind,
        site.tls,
        site.app,
        site.php_fpm,
        end,
    );
    assert(lines[0] == ("domain"@, LineValue::Text(site.domain)));
    assert(lines[1] == ("root"@, LineValue::Text(site.root)));
    assert(lines[2] == ("type"@, LineValue::Text(kind_name(site.kind))));
    assert(lines[3] == ("tls"@, LineValue::Text(tls_name(site.tls))));
    let a: int = if site.app is Some {
        1
    } else {
        0
    };
    let b: int = if site.php_fpm is Some {
        1
    } else {
        0
    };
    if let Some(text) = site.app {
        assert(lines[4] == ("app"@, LineValue::Text(text)));
    }
    if let Some(text) = site.php_fpm {
        assert(lines[4 + a] == ("php_fpm"@, LineValue::Text(text)));
    }
    if let Some(f) = flag {
        assert(lines[4 + a + b] == ("enabled"@, LineValue::Flag(f)));
    }
}

proof fn lemma_names_differ()
    ensures
        "domain"@ != "root"@ && "domain"@ != "type"@ && "domain"@ != "tls"@ && "domain"@ != "app"@
            && "domain"@ != "php_fpm"@ && "domain"@ != "enabled"@,
        "root"@ != "type"@ && "root"@ != "tls"@ && "root"@ != "app"@ && "root"@ != "php_fpm"@
            && "root"@ != "enabled"@,
        "type"@ != "tls"@ && "type"@ != "app"@ && "type"@ != "php_fpm"@ && "type"@ != "enabled"@,
        "tls"@ != "app"@ && "tls"@ != "php_fpm"@ && "tls"@ != "enabled"@,
        "app"@ != "php_fpm"@ && "app"@ != "enabled"@,
        "php_fpm"@ != "enabled"@,
{
    reveal_strlit("domain");
    reveal_strlit("root");
    reveal_strlit("type");
    reveal_strlit("tls");
    reveal_strlit("app");
    reveal_strlit("php_fpm");
    reveal_strlit("enabled");
    assert("domain"@.len() == 6 && "root"@.len() == 4 && "type"@.len() == 4);
    assert("tls"@.len() == 3 && "app"@.len() == 3);
    assert("php_fpm"@.len() == 7 && "enabled"@.len() == 7);
    assert("root"@[0] != "type"@[0]);
    assert("tls"@[0] != "app"@[0]);
    assert("php_fpm"@[0] != "enabled"@[0]);
}

/// A site file reads back, whatever characters its values hold: it reads as the
/// site that was written, which is enabled; an upstream that is absent is not
/// mentioned.
pub proof fn law_site_file_reads_back(
    domain: Seq<char>,
    root: Seq<char>,
    kind: SiteKind,
    tls_off: bool,
    app: Option<Seq<char>>,
    php_fpm: Option<Seq<char>>,
)
    ensures
        reads_as(
            site_toml(domain, root, kind, tls_off, app, php_fpm),
            (SiteText {
                domain,
                root,
                kind,
                tls: if tls_off {
                    SiteTls::Off
                } else {
                    SiteTls::Auto
                },
                app,
                php_fpm,
                enabled: true,
            }),
        ),
{
    let tls = if tls_off {
        SiteTls::Off
    } else {
        SiteTls::Auto
    };
    let site = SiteText { domain, root, kind, tls, app, php_fpm, enabled: true };
    let none = Seq::<char>::empty();
    let file = site_toml(domain, root, kind, tls_off, app, php_fpm);
    assert(read_lines(none) == Some(Seq::<Line>::empty()));
    lemma_site_lines(domain, root, kind, tls, app, php_fpm, none, Seq::empty());
    assert(file + none =~= file);
    lemma_lines_give(site, None);
}

proof fn lemma_names_hold_no_space()
    ensures
        !"domain"@.contains(' '),
        !"root"@.contains(' '),
        !"type"@.contains(' '),
        !"tls"@.contains(' '),
        !"app"@.contains(' '),
        !"php_fpm"@.contains(' '),
{
    reveal_strlit("domain");
    reveal_strlit("root");
    reveal_strlit("type");
    reveal_strlit("tls");
    reveal_strlit("app");
    reveal_strlit("php_fpm");
}

proof fn lemma_optional_line_reads_back(
    name: Seq<char>,
    value: Option<Seq<char>>,
    more: Seq<char>,
    list: Seq<Line>,
)
    requires
        !name.contains(' '),
        read_lines(more) == Some(list),
    ensures
        read_lines(optional_line(name, value) + more) == Some(optional_pair(name, value) + list),
{
    match value {
        Some(text) => {
            lemma_line_reads_back(name, text, more);
        },
        None => {
            assert(optional_line(name, value) + more =~= more);
            assert(optional_pair(name, value) + list =~= list);
        },
    }
}

/// Appends a line with a quoted value.
fn push_line(out: &mut String, name: &str, value: &str)
    ensures
        final(out)@ == old(out)@ + quoted_line(name@, value@),
{
    let text = toml_escape(value);
    out.append(name);
    out.append(" = \"");
    out.append(text.as_str());
    out.append("\"\n");
    assert(out@ =~= old(out)@ + quoted_line(name@, value@));
}

/// Writes a site as TOML. Absent fields are left out.
pub fn write_site_toml(
    domain: &str,
    root: &str,
    kind: SiteKind,
    tls_off: bool,
    app: Option<&str>,
    php_fpm: Option<&str>,
) -> (r: String)
    ensures
        r@ == site_toml(domain@, root@, kind, tls_off, maybe(app), maybe(php_fpm)),
{
    let mut out = String::new();
    push_line(&mut out, "domain", domain);
    push_line(&mut out, "root", root);
    push_line(&mut out, "type", kind_str(kind));
    push_line(
        &mut out,
        "tls",
        if tls_off {
            "off"
        } else {
            "auto"
        },
    );
    if let Some(upstream) = app {
        push_line(&mut out, "app", upstream);
    }
    if let Some(fpm) = php_fpm {
        push_line(&mut out, "php_fpm", fpm);
    }
    assert(out@ =~= site_toml(domain@, root@, kind, tls_off, maybe(app), maybe(php_fpm)));
    out
}

/// The options of the command that adds a site.
#[derive(Debug)]
pub struct SiteAddOpts {
    pub root: Option<String>,
    pub app: Option<String>,
    pub force_php: bool,
    pub force_static: bool,
    pub no_tls: bool,
    pub force: bool,
}

/// The document root of a site: the one given, or one named by the domain.
pub open spec fn site_root(
    domain: Seq<char>,
    opts: SiteAddOpts,
    webroot_base: Seq<char>,
) -> Seq<char> {
    match opts.root {
        Some(root) => root@,
        None => path_below(webroot_base, domain),
    }
}

/// The document root of a site, whose layout is asked for next.
pub fn root_for(domain: &str, opts: &SiteAddOpts, webroot_base: &str) -> (r: String)
    ensures
        r@ == site_root(domain@, *opts, webroot_base@),
{
    match &opts.root {
        Some(root) => root.clone(),
        None => join_path(webroot_base, domain),
    }
}

/// The kind of a site: what the options say, or else what the layout suggests.
pub open spec fn chosen_kind(opts: SiteAddOpts, layout: SiteLayout) -> SiteKind {
    if opts.app is Some {
        SiteKind::App
    } else if opts.force_php {
        SiteKind::Php
    } else if opts.force_static {
        SiteKind::Static
    } else {
        suggested_kind(layout)
    }
}

/// What adding a site comes to.
#[derive(Debug)]
pub struct SiteAddPlan {
    pub domain: String,
    pub sites_dir: String,
    pub site_file: String,
    pub root: String,
    pub kind: SiteKind,
    pub tls_off: bool,
    pub force: bool,
    pub toml: String,
}

/// The file of a site.
pub open spec fn site_file_path(sites_dir: Seq<char>, domain: Seq<char>) -> Seq<char> {
    path_below(sites_dir, domain + ".toml"@)
}

/// The file of a site.
pub fn site_file(sites_dir: &str, domain: &str) -> (r: String)
    ensures
        r@ == site_file_path(sites_dir@, domain@),
{
    let mut name = domain.to_owned();
    name.append(".toml");
    join_path(sites_dir, name.as_str())
}

/// The directory that a site is served from: `public` below the root of a PHP
/// site that has it.
pub open spec fn served_root(root: Seq<char>, kind: SiteKind, layout: SiteLayout) -> Seq<char> {
    if kind == SiteKind::Php && layout.has_public_dir {
        path_below(root, "public"@)
    } else {
        root
    }
}

/// Whether a plan is the one for a domain with these options, whose document
/// root is laid out in this way: explicit flags win over the layout, and no
/// certificate is asked for when told so or when the domain is local.
pub open spec fn plans(
    plan: SiteAddPlan,
    domain: Seq<char>,
    opts: SiteAddOpts,
    sites_dir: Seq<char>,
    webroot_base: Seq<char>,
    layout: SiteLayout,
    local: bool,
) -> bool {
    &&& plan.domain@ == domain
    &&& plan.sites_dir@ == sites_dir
    &&& plan.site_file@ == site_file_path(sites_dir, domain)
    &&& plan.root@ == site_root(domain, opts, webroot_base)
    &&& plan.kind == chosen_kind(opts, layout)
    &&& plan.tls_off == (opts.no_tls || local)
    &&& plan.force == opts.force
    &&& plan.toml@ == site_toml(
        domain,
        served_root(plan.root@, plan.kind, layout),
        plan.kind,
        plan.tls_off,
        maybe_string(opts.app),
        None,
    )
}

/// Plans the addition of a site, given the layout of its root and whether the
/// domain is local.
pub fn plan_site_add(
    domain: &str,
    opts: &SiteAddOpts,
    sites_dir: &str,
    webroot_base: &str,
    layout: SiteLayout,
    local: bool,
) -> (r: SiteAddPlan)
    ensures
        plans(r, domain@, *opts, sites_dir@, webroot_base@, layout, local),
{
    let root = root_for(domain, opts, webroot_base);
    let kind = if opts.app.is_some() {
        SiteKind::App
    } else if opts.force_php {
        SiteKind::Php
    } else if opts.force_static {
        SiteKind::Static
    } else {
        detect_kind(layout)
    };
    let served = if kind == SiteKind::Php && layout.has_public_dir {
        join_path(root.as_str(), "public")
    } else {
        root.clone()
    };
    let tls_off = opts.no_tls || local;
    let app = match &opts.app {
        Some(text) => Some(text.as_str()),
        None => None,
    };
    let toml = write_site_toml(domain, served.as_str(), kind, tls_off, app, None);
    SiteAddPlan {
        domain: domain.to_owned(),
        sites_dir: sites_dir.to_owned(),
        site_file: site_file(sites_dir, domain),
        root,
        kind,
        tls_off,
        force: opts.force,
        toml,
    }
}

/// Plans to add a site, which is local if its domain says so.
pub fn site_add(
    domain: &str,
    opts: &SiteAddOpts,
    sites_dir: &str,
    webroot_base: &str,
    layout: SiteLayout,
) -> (r: SiteAddPlan)
    ensures
        plans(
            r,
            domain@,
            *opts,
            sites_dir@,
            webroot_base@,
            layout,
            local_name(domain@, address_in(domain@) is Some),
        ),
{
    let local = is_local(domain);
    plan_site_add(domain, opts, sites_dir, webroot_base, layout, local)
}

/// What happened last while a site is added. An error is given in words.
#[derive(Debug)]
pub enum SiteAddEvent {
    Start,
    SitesDirMade(Option<String>),
    FileLookedFor(bool),
    RootMade(Option<String>),
    FileWritten(Option<String>),
}

/// What to do next while a site is added.
#[derive(Debug)]
pub enum SiteAddAction {
    /// Create the directory of site files.
    MakeSitesDir,
    /// See whether the site file exists.
    LookForFile,
    /// Create the document root.
    MakeRoot,
    /// Write the site file.
    WriteFile,
    /// Give up with this message.
    Fail(String),
    /// Report success with these lines.
    Report(Vec<String>),
}

/// The message for a directory or file that could not be made.
pub open spec fn trouble(words: Seq<char>, path: Seq<char>, error: Seq<char>) -> Seq<char> {
    words + path + ": "@ + error
}

fn trouble_text(words: &str, path: &str, error: &str) -> (r: String)
    ensures
        r@ == trouble(words@, path@, error@),
{
    let mut out = words.to_owned();
    out.append(path);
    out.append(": ");
    out.append(error);
    out
}

/// The name of a kind in a report.
pub open spec fn kind_title(kind: SiteKind) -> Seq<char> {
    match kind {
        SiteKind::Static => "Static"@,
        SiteKind::Php => "Php"@,
        SiteKind::App => "App"@,
    }
}

/// The lines that report an added site.
pub open spec fn report(plan: SiteAddPlan) -> Seq<Seq<char>> {
    let scheme = if plan.tls_off {
        "http"@
    } else {
        "https"@
    };
    let lines = seq![
        "Site added: "@ + plan.domain@,
        "  Site file : "@ + plan.site_file@,
        "  Web root  : "@ + plan.root@,
        "  Kind      : "@ + kind_title(plan.kind),
        "  URL       : "@ + scheme + "://"@ + plan.domain@ + "/"@,
    ];
    if plan.tls_off {
        lines
    } else {
        lines.push(
            "  Note: for automatic HTTPS, ensure the main config listens on 443 with [acme] and 80 for redirects"@,
        )
    }
}

/// What an action comes to, as text.
pub enum SiteAddActionText {
    MakeSitesDir,
    LookForFile,
    MakeRoot,
    WriteFile,
    Fail(Seq<char>),
    Report(Seq<Seq<char>>),
}

impl View for SiteAddAction {
    type V = SiteAddActionText;

    open spec fn view(&self) -> SiteAddActionText {
        match *self {
            SiteAddAction::MakeSitesDir => SiteAddActionText::MakeSitesDir,
            SiteAddAction::LookForFile => SiteAddActionText::LookForFile,
            SiteAddAction::MakeRoot => SiteAddActionText::MakeRoot,
            SiteAddAction::WriteFile => SiteAddActionText::WriteFile,
            SiteAddAction::Fail(text) => SiteAddActionText::Fail(text@),
            SiteAddAction::Report(lines) => SiteAddActionText::Report(texts(lines@)),
        }
    }
}

/// What follows an event: the directory of site files is made, then the site
/// file is looked for, then the root is made, then the file is written. Any
/// error ends it, and so does a file that exists, unless overwriting is forced.
pub open spec fn after_event(plan: SiteAddPlan, event: SiteAddEvent) -> SiteAddActionText {
    match event {
        SiteAddEvent::Start => SiteAddActionText::MakeSitesDir,
        SiteAddEvent::SitesDirMade(None) => SiteAddActionText::LookForFile,
        SiteAddEvent::SitesDirMade(Some(e)) => SiteAddActionText::Fail(
            trouble("zaphyl: could not create sites directory "@, plan.sites_dir@, e@),
        ),
        SiteAddEvent::FileLookedFor(exists) => if exists && !plan.force {
            SiteAddActionText::Fail(
                "zaphyl: site "@ + plan.domain@ + " already exists at "@ + plan.site_file@
                    + " (use --force to overwrite)"@,
            )
        } else {
            SiteAddActionText::MakeRoot
        },
        SiteAddEvent::RootMade(None) => SiteAddActionText::WriteFile,
        SiteAddEvent::RootMade(Some(e)) => SiteAddActionText::Fail(
            trouble("zaphyl: could not create web root "@, plan.root@, e@),
        ),
        SiteAddEvent::FileWritten(None) => SiteAddActionText::Report(report(plan)),
        SiteAddEvent::FileWritten(Some(e)) => SiteAddActionText::Fail(
            trouble("zaphyl: could not write "@, plan.site_file@, e@),
        ),
    }
}

fn labelled(label: &str, text: &str) -> (r: String)
    ensures
        r@ == label@ + text@,
{
    let mut out = label.to_owned();
    out.append(text);
    out
}

impl SiteAddPlan {
    /// The lines that report the added site.
    fn report(&self) -> (r: Vec<String>)
        ensures
            texts(r@) == report(*self),
    {
        let mut lines: Vec<String> = Vec::new();
        lines.push(labelled("Site added: ", self.domain.as_str()));
        lines.push(labelled("  Site file : ", self.site_file.as_str()));
        lines.push(labelled("  Web root  : ", self.root.as_str()));
        lines.push(
            labelled(
                "  Kind      : ",
                match self.kind {
                    SiteKind::Static => "Static",
                    SiteKind::Php => "Php",
                    SiteKind::App => "App",
                },
            ),
        );
        let mut url = labelled(
            "  URL       : ",
            if self.tls_off {
                "http"
            } else {
                "https"
            },
        );
        url.append("://");
        url.append(self.domain.as_str());
        url.append("/");
        lines.push(url);
        if !self.tls_off {
            lines.push(
                "  Note: for automatic HTTPS, ensure the main config listens on 443 with [acme] and 80 for redirects".to_owned(),
            );
        }
        assert(texts(lines@) =~= report(*self));
        lines
    }

    /// What to do after an event.
    pub fn next_action(&self, event: &SiteAddEvent) -> (r: SiteAddAction)
        ensures
            r@ == after_event(*self, *event),
    {
        match event {
            SiteAddEvent::Start => SiteAddAction::MakeSitesDir,
            SiteAddEvent::SitesDirMade(outcome) => match outcome {
                None => SiteAddAction::LookForFile,
                Some(e) => SiteAddAction::Fail(
                    trouble_text(
                        "zaphyl: could not create sites directory ",
                        self.sites_dir.as_str(),
                        e.as_str(),
                    ),
                ),
            },
            SiteAddEvent::FileLookedFor(exists) => if *exists && !self.force {
                let mut text = labelled("zaphyl: site ", self.domain.as_str());
                text.append(" already exists at ");
                text.append(self.site_file.as_str());
                text.append(" (use --force to overwrite)");
                SiteAddAction::Fail(text)
            } else {
                SiteAddAction::MakeRoot
            },
            SiteAddEvent::RootMade(outcome) => match outcome {
                None => SiteAddAction::WriteFile,
                Some(e) => SiteAddAction::Fail(
                    trouble_text(
                        "zaphyl: could not create web root ",
                        self.root.as_str(),
                        e.as_str(),
                    ),
                ),
            },
            SiteAddEvent::FileWritten(outcome) => match outcome {
                None => SiteAddAction::Report(self.report()),
                Some(e) => SiteAddAction::Fail(
                    trouble_text("zaphyl: could not write ", self.site_file.as_str(), e.as_str()),
                ),
            },
        }
    }
}

/// A site file that exists is never written over unless that is forced: the
/// file is written after the root was made, the root is made after the file
/// was looked for, and that fails where it exists.
pub proof fn law_existing_site_is_kept(plan: SiteAddPlan, event: SiteAddEvent)
    ensures
        after_event(plan, event) is WriteFile ==> event is RootMade,
        after_event(plan, event) is MakeRoot ==> event is FileLookedFor,
        !plan.force ==> after_event(plan, SiteAddEvent::FileLookedFor(true)) is Fail,
{
}

/// The line that lists a site.
pub open spec fn list_line(site: SiteConfig) -> Seq<char> {
    site.domain@ + " ["@ + kind_name(site.kind) + "] ("@ + (if site.enabled {
        "enabled"@
    } else {
        "DISABLED"@
    }) + ")"@
}

/// The line that lists a site.
pub fn site_list_line(site: &SiteConfig) -> (r: String)
    ensures
        r@ == list_line(*site),
{
    let mut out = site.domain.clone();
    out.append(" [");
    out.append(kind_str(site.kind));
    out.append("] (");
    out.append(
        if site.enabled {
            "enabled"
        } else {
            "DISABLED"
        },
    );
    out.append(")");
    out
}

/// The file of a site once it is enabled or disabled: all that it says, and
/// whether it is enabled.
pub open spec fn enabled_toml(site: SiteConfig, enabled: bool) -> Seq<char> {
    site_toml(
        site.domain@,
        site.root@,
        site.kind,
        site.tls == SiteTls::Off,
        maybe_string(site.app),
        maybe_string(site.php_fpm),
    ) + (if enabled {
        "enabled = true\n"@
    } else {
        "enabled = false\n"@
    })
}

/// The file of a site once it is enabled or disabled.
pub fn set_enabled_toml(site: &SiteConfig, enabled: bool) -> (r: String)
    ensures
        r@ == enabled_toml(*site, enabled),
{
    let app = match &site.app {
        Some(text) => Some(text.as_str()),
        None => None,
    };
    let php_fpm = match &site.php_fpm {
        Some(text) => Some(text.as_str()),
        None => None,
    };
    let tls_off = site.tls == SiteTls::Off;
    let mut out = write_site_toml(
        site.domain.as_str(),
        site.root.as_str(),
        site.kind,
        tls_off,
        app,
        php_fpm,
    );
    out.append(
        if enabled {
            "enabled = true\n"
        } else {
            "enabled = false\n"
        },
    );
    out
}

/// The file of a site that is enabled or disabled reads back as the same site
/// with the new setting: nothing else that it says is lost.
pub proof fn law_set_enabled_keeps_the_rest(site: SiteConfig, enabled: bool)
    ensures
        reads_as(enabled_toml(site, enabled), (SiteText { enabled, ..site_text(site) })),
{
    let text = SiteText { enabled, ..site_text(site) };
    let rest = "enabled"@ + flag_end(enabled);
    let end = seq![("enabled"@, LineValue::Flag(enabled))];
    lemma_flag_reads_back(enabled);
    lemma_site_lines(
        text.domain,
        text.root,
        text.kind,
        text.tls,
        text.app,
        text.php_fpm,
        rest,
        end,
    );
    assert(rest =~= if enabled {
        "enabled = true\n"@
    } else {
        "enabled = false\n"@
    }) by {
        reveal_strlit("enabled");
        reveal_strlit(" = true\n");
        reveal_strlit(" = false\n");
        reveal_strlit("enabled = true\n");
        reveal_strlit("enabled = false\n");
    }
    lemma_lines_give(text, Some(enabled));
}

/// Disabling a site and enabling it again gives the site back as it was, but
/// enabled.
pub proof fn law_disabling_is_undone(site: SiteConfig, disabled: SiteConfig, again: SiteText)
    requires
        reads_as(enabled_toml(site, false), site_text(disabled)),
        reads_as(enabled_toml(disabled, true), again),
    ensures
        again == (SiteText { enabled: true, ..site_text(site) }),
{
    law_set_enabled_keeps_the_rest(site, false);
    law_file_reads_as_one_site(
        enabled_toml(site, false),
        site_text(disabled),
        SiteText { enabled: false, ..site_text(site) },
    );
    law_set_enabled_keeps_the_rest(disabled, true);
    law_file_reads_as_one_site(
        enabled_toml(disabled, true),
        again,
        SiteText { enabled: true, ..site_text(disabled) },
    );
}

} // verus!
