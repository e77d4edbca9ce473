use vstd::prelude::*;
use vstd::string::*;

use crate::address::{dec_str, digit_char};
use crate::config::{ConfigView, ServiceConfig, ShareConfig, ShareView};
use crate::errors::MdnsError;

verus! {

// ---------------------------------------------------------------------
// The persisted configuration document: a structured-text object with
// the fields of ConfigView in declaration order, string values quoted
// with backslash escapes, the port in decimal, the shares as an array
// of objects, and an optional trailing bind-address field.  `save`
// writes the canonical pretty-printed layout; `load` accepts any
// whitespace between tokens but is otherwise strict: the fields stand
// in declaration order, unknown or missing fields are errors, and
// nothing may follow the closing brace.  The fixed field order is a
// deliberate tightening of the strict schema: the canonical layout is
// the only one this library ever writes, a hand-reordered document is
// reported as malformed rather than guessed at, and a run then falls
// back to the built-in template.  String escapes cover the quote, the
// backslash, and the named control characters (newline, carriage
// return, tab, backspace, form feed); numeric escape sequences are not
// part of the format.
// ---------------------------------------------------------------------
// Escaping of string values.
/// How one character is written inside a quoted string.
pub open spec fn esc_char(c: char) -> Seq<char> {
    if c == '"' {
        seq!['\\', '"']
    } else if c == '\\' {
        seq!['\\', '\\']
    } else if c == '\n' {
        seq!['\\', 'n']
    } else if c == '\r' {
        seq!['\\', 'r']
    } else if c == '\t' {
        seq!['\\', 't']
    } else if c == '\u{0008}' {
        seq!['\\', 'b']
    } else if c == '\u{000C}' {
        seq!['\\', 'f']
    } else {
        seq![c]
    }
}

/// A string value with its quotes' escapes applied.
pub open spec fn escape_str(s: Seq<char>) -> Seq<char>
    decreases s.len(),
{
    if s.len() == 0 {
        Seq::empty()
    } else {
        esc_char(s[0]) + escape_str(s.skip(1))
    }
}

/// A quoted string value as it stands in the document.
pub open spec fn quoted(s: Seq<char>) -> Seq<char> {
    seq!['"'] + escape_str(s) + seq!['"']
}

/// The characters accepted between tokens.
pub open spec fn is_ws(c: char) -> bool {
    c == ' ' || c == '\n' || c == '\t' || c == '\r'
}

/// Position of the first non-whitespace character at or after `i`.
pub open spec fn skip_ws(t: Seq<char>, i: int) -> int
    decreases t.len() - i,
{
    if 0 <= i && i < t.len() && is_ws(t[i]) {
        skip_ws(t, i + 1)
    } else {
        i
    }
}

/// Position after `lit` when the text carries `lit` at `i`.
pub open spec fn match_lit(t: Seq<char>, i: int, lit: Seq<char>) -> Option<int> {
    if 0 <= i && i + lit.len() <= t.len() && t.subrange(i, i + lit.len()) == lit {
        Some(i + lit.len())
    } else {
        None
    }
}

/// The character an escape sequence stands for.
pub open spec fn unesc(c: char) -> Option<char> {
    if c == '"' {
        Some('"')
    } else if c == '\\' {
        Some('\\')
    } else if c == '/' {
        Some('/')
    } else if c == 'n' {
        Some('\n')
    } else if c == 'r' {
        Some('\r')
    } else if c == 't' {
        Some('\t')
    } else if c == 'b' {
        Some('\u{0008}')
    } else if c == 'f' {
        Some('\u{000C}')
    } else {
        None
    }
}

/// The value and end of a quoted string's body, starting right after
/// the opening quote.
pub open spec fn parse_str_body(t: Seq<char>, i: int) -> Option<(Seq<char>, int)>
    decreases t.len() - i,
{
    if 0 <= i && i < t.len() {
        if t[i] == '"' {
            Some((Seq::empty(), i + 1))
        } else if t[i] == '\\' {
            if i + 1 < t.len() {
                match unesc(t[i + 1]) {
                    Some(c) => match parse_str_body(t, i + 2) {
                        Some(p) => Some((seq![c] + p.0, p.1)),
                        None => None,
                    },
                    None => None,
                }
            } else {
                None
            }
        } else {
            match parse_str_body(t, i + 1) {
                Some(p) => Some((seq![t[i]] + p.0, p.1)),
                None => None,
            }
        }
    } else {
        None
    }
}

/// A quoted string value at `i`.
pub open spec fn parse_string(t: Seq<char>, i: int) -> Option<(Seq<char>, int)> {
    if 0 <= i && i < t.len() && t[i] == '"' {
        parse_str_body(t, i + 1)
    } else {
        None
    }
}

pub open spec fn is_digit(c: char) -> bool {
    48 <= c as u32 <= 57
}

pub open spec fn digit_val(c: char) -> int {
    c as u32 - 48
}

/// End of the run of digits starting at `i`.
pub open spec fn digit_run_end(t: Seq<char>, i: int) -> int
    decreases t.len() - i,
{
    if 0 <= i && i < t.len() && is_digit(t[i]) {
        digit_run_end(t, i + 1)
    } else {
        i
    }
}

/// Numeric value of a non-empty run of digits.
pub open spec fn run_val(s: Seq<char>) -> int
    decreases s.len(),
{
    if s.len() <= 1 {
        digit_val(s[0])
    } else {
        run_val(s.drop_last()) * 10 + digit_val(s.last())
    }
}

/// A port number at `i`: a run of one to five digits without a leading
/// zero, valid when its value fits a sixteen-bit port.
pub open spec fn parse_port(t: Seq<char>, i: int) -> Option<(u16, int)> {
    let j = digit_run_end(t, i);
    if i < j && j - i <= 5 && (j - i == 1 || t[i] != '0') && run_val(t.subrange(i, j)) <= 65535 {
        Some((run_val(t.subrange(i, j)) as u16, j))
    } else {
        None
    }
}

/// The literal announcing a field: the quoted key and its colon.
pub open spec fn key_lit(key: Seq<char>) -> Seq<char> {
    seq!['"'] + key + seq!['"', ':']
}

/// A string-valued field: optional whitespace, the key literal,
/// optional whitespace, a quoted value.
pub open spec fn parse_kv_string(t: Seq<char>, i: int, key: Seq<char>) -> Option<(Seq<char>, int)> {
    let i1 = skip_ws(t, i);
    match match_lit(t, i1, key_lit(key)) {
        Some(i2) => parse_string(t, skip_ws(t, i2)),
        None => None,
    }
}

/// The port field.
pub open spec fn parse_kv_port(t: Seq<char>, i: int) -> Option<(u16, int)> {
    let i1 = skip_ws(t, i);
    match match_lit(t, i1, key_lit("port"@)) {
        Some(i2) => parse_port(t, skip_ws(t, i2)),
        None => None,
    }
}

/// A comma between two fields.
pub open spec fn parse_comma(t: Seq<char>, i: int) -> Option<int> {
    match_lit(t, skip_ws(t, i), seq![','])
}

/// One share object: its three string fields in declaration order.
pub open spec fn parse_share_obj(t: Seq<char>, i: int) -> Option<(ShareView, int)> {
    match match_lit(t, i, seq!['{']) {
        Some(i1) => match parse_kv_string(t, i1, "name"@) {
            Some((name, i2)) => match parse_comma(t, i2) {
                Some(i3) => match parse_kv_string(t, i3, "path"@) {
                    Some((path, i4)) => match parse_comma(t, i4) {
                        Some(i5) => match parse_kv_string(t, i5, "comment"@) {
                            Some((comment, i6)) => match match_lit(
                                t,
                                skip_ws(t, i6),
                                seq!['}'],
                            ) {
                                Some(i7) => Some((ShareView { name, path, comment }, i7)),
                                None => None,
                            },
                            None => None,
                        },
                        None => None,
                    },
                    None => None,
                },
                None => None,
            },
            None => None,
        },
        None => None,
    }
}

/// The share objects after the opening bracket: either an immediate
/// closing bracket, or share objects separated by commas and then the
/// closing bracket.
pub open spec fn parse_share_list(t: Seq<char>, i: int) -> Option<(Seq<ShareView>, int)>
    decreases t.len() - i,
{
    let i0 = skip_ws(t, i);
    match match_lit(t, i0, seq![']']) {
        Some(j) => Some((Seq::empty(), j)),
        None => match parse_share_obj(t, i0) {
            Some((sh, j)) => {
                let j0 = skip_ws(t, j);
                match match_lit(t, j0, seq![',']) {
                    Some(j1) => if i < j1 {
                        match parse_share_list(t, j1) {
                            Some((rest, k)) => Some((seq![sh] + rest, k)),
                            None => None,
                        }
                    } else {
                        None
                    },
                    None => match match_lit(t, j0, seq![']']) {
                        Some(k) => Some((seq![sh], k)),
                        None => None,
                    },
                }
            },
            None => None,
        },
    }
}

/// The optional trailing bind-address field and the closing brace: the
/// document either closes directly, or carries one more string field
/// named bind_address and then closes.
pub open spec fn parse_tail(t: Seq<char>, i: int) -> Option<(Option<Seq<char>>, int)> {
    let i0 = skip_ws(t, i);
    match match_lit(t, i0, seq!['}']) {
        Some(j) => Some((None, j)),
        None => match match_lit(t, i0, seq![',']) {
            Some(i1) => match parse_kv_string(t, i1, "bind_address"@) {
                Some((b, i2)) => match match_lit(t, skip_ws(t, i2), seq!['}']) {
                    Some(j) => Some((Some(b), j)),
                    None => None,
                },
                None => None,
            },
            None => None,
        },
    }
}

/// The whole document: the object with every field in declaration
/// order, and nothing but whitespace after it.
pub open spec fn parse_document(t: Seq<char>) -> Option<ConfigView> {
    match match_lit(t, skip_ws(t, 0), seq!['{']) {
        Some(i1) => match parse_kv_string(t, i1, "service_name"@) {
            Some((sn, i2)) => match parse_comma(t, i2) {
                Some(i3) => match parse_kv_string(t, i3, "instance_name"@) {
                    Some((inst, i4)) => match parse_comma(t, i4) {
                        Some(i5) => match parse_kv_port(t, i5) {
                            Some((port, i6)) => match parse_comma(t, i6) {
                                Some(i7) => match parse_kv_string(t, i7, "hostname"@) {
                                    Some((host, i8)) => match parse_comma(t, i8) {
                                        Some(i9) => match parse_kv_string(t, i9, "workgroup"@) {
                                            Some((wg, i10)) => match parse_comma(t, i10) {
                                                Some(i11) => match parse_kv_string(
                                                    t,
                                                    i11,
                                                    "description"@,
                                                ) {
                                                    Some((desc, i12)) => match parse_comma(
                                                        t,
                                                        i12,
                                                    ) {
                                                        Some(i13) => parse_document_shares(
                                                            t,
                                                            i13,
                                                            sn,
                                                            inst,
                                                            port,
                                                            host,
                                                            wg,
                                                            desc,
                                                        ),
                                                        None => None,
                                                    },
                                                    None => None,
                                                },
                                                None => None,
                                            },
                                            None => None,
                                        },
                                        None => None,
                                    },
                                    None => None,
                                },
                                None => None,
                            },
                            None => None,
                        },
                        None => None,
                    },
                    None => None,
                },
                None => None,
            },
            None => None,
        },
        None => None,
    }
}

/// The shares field, the tail and the end of the document.
pub open spec fn parse_document_shares(
    t: Seq<char>,
    i: int,
    sn: Seq<char>,
    inst: Seq<char>,
    port: u16,
    host: Seq<char>,
    wg: Seq<char>,
    desc: Seq<char>,
) -> Option<ConfigView> {
    let i1 = skip_ws(t, i);
    match match_lit(t, i1, key_lit("shares"@)) {
        Some(i2) => match match_lit(t, skip_ws(t, i2), seq!['[']) {
            Some(i3) => match parse_share_list(t, i3) {
                Some((shares, i4)) => match parse_tail(t, i4) {
                    Some((bind, i5)) => if skip_ws(t, i5) == t.len() {
                        Some(
                            ConfigView {
                                service_name: sn,
                                instance_name: inst,
                                port,
                                hostname: host,
                                workgroup: wg,
                                description: desc,
                                shares,
                                bind_address: bind,
                            },
                        )
                    } else {
                        None
                    },
                    None => None,
                },
                None => None,
            },
            None => None,
        },
        None => None,
    }
}

// ---------------------------------------------------------------------
// The canonical pretty-printed encoding that `save` produces.
// ---------------------------------------------------------------------
/// A field as written: quoted key, colon, one space, quoted value.
pub open spec fn enc_str_field(key: Seq<char>, v: Seq<char>) -> Seq<char> {
    key_lit(key) + seq![' '] + quoted(v)
}

/// One share object in the canonical layout.
pub open spec fn enc_share(s: ShareView) -> Seq<char> {
    "{\n      "@ + enc_str_field("name"@, s.name) + ",\n      "@ + enc_str_field(
        "path"@,
        s.path,
    ) + ",\n      "@ + enc_str_field("comment"@, s.comment) + "\n    }"@
}

/// The share objects from index `i` on, separated by commas, and the
/// closing bracket.
pub open spec fn enc_share_items(shares: Seq<ShareView>, i: int) -> Seq<char>
    decreases shares.len() - i,
{
    if i < shares.len() {
        enc_share(shares[i]) + if i + 1 < shares.len() {
            ",\n    "@ + enc_share_items(shares, i + 1)
        } else {
            "\n  ]"@
        }
    } else {
        Seq::empty()
    }
}

/// Everything after the opening bracket of the shares array.
pub open spec fn enc_share_list(shares: Seq<ShareView>) -> Seq<char> {
    if shares.len() == 0 {
        "]"@
    } else {
        "\n    "@ + enc_share_items(shares, 0)
    }
}

/// The trailing bind-address field, when present, and the closing brace.
pub open spec fn enc_tail(bind: Option<Seq<char>>) -> Seq<char> {
    match bind {
        Some(b) => ",\n  "@ + enc_str_field("bind_address"@, b) + "\n}"@,
        None => "\n}"@,
    }
}

/// The canonical pretty-printed document of a configuration.
pub open spec fn spec_encode(c: ConfigView) -> Seq<char> {
    "{\n  "@ + enc_str_field("service_name"@, c.service_name) + ",\n  "@ + enc_str_field(
        "instance_name"@,
        c.instance_name,
    ) + ",\n  "@ + key_lit("port"@) + seq![' '] + dec_str(c.port as int) + ",\n  "@
        + enc_str_field("hostname"@, c.hostname) + ",\n  "@ + enc_str_field(
        "workgroup"@,
        c.workgroup,
    ) + ",\n  "@ + enc_str_field("description"@, c.description) + ",\n  "@ + key_lit("shares"@)
        + seq![' ', '['] + enc_share_list(c.shares) + enc_tail(c.bind_address)
}

// ---------------------------------------------------------------------
// The executable parser.  Each function mirrors its specification
// function and is proved to return exactly what it does.
// ---------------------------------------------------------------------
/// The models of a sequence of shares, in order.
pub open spec fn shares_view(s: Seq<ShareConfig>) -> Seq<ShareView> {
    Seq::new(s.len(), |i: int| s[i]@)
}

fn skip_ws_x(s: &str, n: usize, i: usize) -> (r: usize)
    requires
        n == s@.len(),
        i <= n,
    ensures
        r as int == skip_ws(s@, i as int),
        i <= r <= n,
    decreases n - i,
{
    if i < n {
        let c = s.get_char(i);
        if c == ' ' || c == '\n' || c == '\t' || c == '\r' {
            skip_ws_x(s, n, i + 1)
        } else {
            i
        }
    } else {
        i
    }
}

fn match_lit_x(s: &str, n: usize, i: usize, lit: &str) -> (r: Option<usize>)
    requires
        n == s@.len(),
        i <= n,
    ensures
        match r {
            Some(j) => match_lit(s@, i as int, lit@) == Some(j as int) && i <= j <= n,
            None => match_lit(s@, i as int, lit@) is None,
        },
{
    let m: usize = lit.unicode_len();
    if m > n - i {
        return None;
    }
    let mut k: usize = 0;
    while k < m
        invariant
            n == s@.len(),
            m == lit@.len(),
            i + m <= n,
            k <= m,
            forall|q: int| 0 <= q < k ==> s@[i + q] == lit@[q],
        decreases m - k,
    {
        if s.get_char(i + k) != lit.get_char(k) {
            assert(s@.subrange(i as int, i + m)[k as int] != lit@[k as int]);
            return None;
        }
        k += 1;
    }
    assert(s@.subrange(i as int, i + m) =~= lit@);
    Some(i + m)
}

fn unesc_x(c: char) -> (r: Option<&'static str>)
    ensures
        match unesc(c) {
            Some(u) => r matches Some(t) && t@ == seq![u],
            None => r is None,
        },
{
    if c == '"' {
        proof {
            reveal_strlit("\"");
            assert("\""@ =~= seq!['"']);
        }
        Some("\"")
    } else if c == '\\' {
        proof {
            reveal_strlit("\\");
            assert("\\"@ =~= seq!['\\']);
        }
        Some("\\")
    } else if c == '/' {
        proof {
            reveal_strlit("/");
            assert("/"@ =~= seq!['/']);
        }
        Some("/")
    } else if c == 'n' {
        proof {
            reveal_strlit("\n");
            assert("\n"@ =~= seq!['\n']);
        }
        Some("\n")
    } else if c == 'r' {
        proof {
            reveal_strlit("\r");
            assert("\r"@ =~= seq!['\r']);
        }
        Some("\r")
    } else if c == 't' {
        proof {
            reveal_strlit("\t");
            assert("\t"@ =~= seq!['\t']);
        }
        Some("\t")
    } else if c == 'b' {
        proof {
            reveal_strlit("\u{0008}");
            assert("\u{0008}"@ =~= seq!['\u{0008}']);
        }
        Some("\u{0008}")
    } else if c == 'f' {
        proof {
            reveal_strlit("\u{000C}");
            assert("\u{000C}"@ =~= seq!['\u{000C}']);
        }
        Some("\u{000C}")
    } else {
        None
    }
}

fn parse_str_body_x(s: &str, n: usize, i: usize) -> (r: Option<(String, usize)>)
    requires
        n == s@.len(),
        i <= n,
    ensures
        match r {
            Some(p) => parse_str_body(s@, i as int) == Some((p.0@, p.1 as int)) && i < p.1 <= n,
            None => parse_str_body(s@, i as int) is None,
        },
    decreases n - i,
{
    if i < n {
        let c = s.get_char(i);
        if c == '"' {
            Some((String::new(), i + 1))
        } else if c == '\\' {
            if i + 1 < n {
                let e = s.get_char(i + 1);
                match unesc_x(e) {
                    Some(u) => match parse_str_body_x(s, n, i + 2) {
                        Some(p) => {
                            let v = u.to_owned().concat(p.0.as_str());
                            Some((v, p.1))
                        },
                        None => None,
                    },
                    None => None,
                }
            } else {
                None
            }
        } else {
            let piece = s.substring_char(i, i + 1);
            match parse_str_body_x(s, n, i + 1) {
                Some(p) => {
                    let v = piece.to_owned().concat(p.0.as_str());
                    assert(piece@ =~= seq![s@[i as int]]);
                    Some((v, p.1))
                },
                None => None,
            }
        }
    } else {
        None
    }
}

fn parse_string_x(s: &str, n: usize, i: usize) -> (r: Option<(String, usize)>)
    requires
        n == s@.len(),
        i <= n,
    ensures
        match r {
            Some(p) => parse_string(s@, i as int) == Some((p.0@, p.1 as int)) && i < p.1 <= n,
            None => parse_string(s@, i as int) is None,
        },
{
    if i < n {
        let c = s.get_char(i);
        if c == '"' {
            parse_str_body_x(s, n, i + 1)
        } else {
            None
        }
    } else {
        None
    }
}

fn digit_run_end_x(s: &str, n: usize, i: usize) -> (r: usize)
    requires
        n == s@.len(),
        i <= n,
    ensures
        r as int == digit_run_end(s@, i as int),
        i <= r <= n,
    decreases n - i,
{
    if i < n {
        let c = s.get_char(i);
        let u = c as u32;
        if 48 <= u && u <= 57 {
            digit_run_end_x(s, n, i + 1)
        } else {
            i
        }
    } else {
        i
    }
}

/// Every character of the digit run is a digit.
proof fn lemma_digit_run_digits(t: Seq<char>, i: int)
    requires
        0 <= i <= t.len(),
    ensures
        forall|k: int| i <= k < digit_run_end(t, i) ==> is_digit(#[trigger] t[k]),
        i <= digit_run_end(t, i) <= t.len(),
    decreases t.len() - i,
{
    if i < t.len() && is_digit(t[i]) {
        lemma_digit_run_digits(t, i + 1);
    }
}

/// A run of up to five digits stays below one hundred thousand.
proof fn lemma_run_val_small(s: Seq<char>)
    requires
        1 <= s.len() <= 5,
        forall|k: int| 0 <= k < s.len() ==> is_digit(#[trigger] s[k]),
    ensures
        0 <= run_val(s),
        s.len() == 1 ==> run_val(s) <= 9,
        s.len() == 2 ==> run_val(s) <= 99,
        s.len() == 3 ==> run_val(s) <= 999,
        s.len() == 4 ==> run_val(s) <= 9999,
        s.len() == 5 ==> run_val(s) <= 99999,
    decreases s.len(),
{
    if s.len() > 1 {
        lemma_run_val_small(s.drop_last());
    }
}

fn run_val_x(s: &str, n: usize, i: usize, j: usize) -> (r: u32)
    requires
        n == s@.len(),
        i < j <= n,
        j - i <= 5,
        forall|k: int| i <= k < j ==> is_digit(#[trigger] s@[k]),
    ensures
        r as int == run_val(s@.subrange(i as int, j as int)),
        r <= 99999,
    decreases j - i,
{
    proof {
        assert forall|k: int| 0 <= k < j - i implies is_digit(
            #[trigger] s@.subrange(i as int, j as int)[k],
        ) by {}
        lemma_run_val_small(s@.subrange(i as int, j as int));
    }
    if j - i == 1 {
        let c = s.get_char(i);
        let u = c as u32;
        u - 48
    } else {
        let prev = run_val_x(s, n, i, j - 1);
        proof {
            assert(s@.subrange(i as int, j as int).drop_last() =~= s@.subrange(
                i as int,
                j - 1 as int,
            ));
            lemma_run_val_small(s@.subrange(i as int, j - 1 as int));
        }
        let c = s.get_char(j - 1);
        let u = c as u32;
        prev * 10 + (u - 48)
    }
}

fn parse_port_x(s: &str, n: usize, i: usize) -> (r: Option<(u16, usize)>)
    requires
        n == s@.len(),
        i <= n,
    ensures
        match r {
            Some(p) => parse_port(s@, i as int) == Some((p.0, p.1 as int)) && i < p.1 <= n,
            None => parse_port(s@, i as int) is None,
        },
{
    let j = digit_run_end_x(s, n, i);
    proof {
        lemma_digit_run_digits(s@, i as int);
    }
    if i < j && j - i <= 5 {
        let lead = s.get_char(i);
        if j - i == 1 || lead != '0' {
            let v = run_val_x(s, n, i, j);
            if v <= 65535 {
                Some((v as u16, j))
            } else {
                None
            }
        } else {
            None
        }
    } else {
        None
    }
}
fn parse_kv_string_x(
    s: &str,
    n: usize,
    i: usize,
    lit: &str,
    Ghost(key): Ghost<Seq<char>>,
) -> (r: Option<(String, usize)>)
    requires
        n == s@.len(),
        i <= n,
        lit@ == key_lit(key),
    ensures
        match r {
            Some(p) => parse_kv_string(s@, i as int, key) == Some((p.0@, p.1 as int)) && i < p.1
                <= n,
            None => parse_kv_string(s@, i as int, key) is None,
        },
{
    let i1 = skip_ws_x(s, n, i);
    match match_lit_x(s, n, i1, lit) {
        Some(i2) => {
            let i3 = skip_ws_x(s, n, i2);
            parse_string_x(s, n, i3)
        },
        None => None,
    }
}

fn parse_comma_x(s: &str, n: usize, i: usize) -> (r: Option<usize>)
    requires
        n == s@.len(),
        i <= n,
    ensures
        match r {
            Some(j) => parse_comma(s@, i as int) == Some(j as int) && i <= j <= n,
            None => parse_comma(s@, i as int) is None,
        },
{
    proof {
        reveal_strlit(",");
        assert(","@ =~= seq![',']);
    }
    let i0 = skip_ws_x(s, n, i);
    match_lit_x(s, n, i0, ",")
}

fn parse_share_obj_x(s: &str, n: usize, i: usize) -> (r: Option<(ShareConfig, usize)>)
    requires
        n == s@.len(),
        i <= n,
    ensures
        match r {
            Some(p) => parse_share_obj(s@, i as int) == Some((p.0@, p.1 as int)) && i < p.1 <= n,
            None => parse_share_obj(s@, i as int) is None,
        },
{
    proof {
        reveal_strlit("{");
        assert("{"@ =~= seq!['{']);
        reveal_strlit("}");
        assert("}"@ =~= seq!['}']);
        reveal_strlit("\"name\":");
        reveal_strlit("name");
        assert("\"name\":"@ =~= key_lit("name"@));
        reveal_strlit("\"path\":");
        reveal_strlit("path");
        assert("\"path\":"@ =~= key_lit("path"@));
        reveal_strlit("\"comment\":");
        reveal_strlit("comment");
        assert("\"comment\":"@ =~= key_lit("comment"@));
    }
    let i1 = match match_lit_x(s, n, i, "{") {
        Some(j) => j,
        None => {
            return None;
        },
    };
    let (name, i2) = match parse_kv_string_x(s, n, i1, "\"name\":", Ghost("name"@)) {
        Some(p) => p,
        None => {
            return None;
        },
    };
    let i3 = match parse_comma_x(s, n, i2) {
        Some(j) => j,
        None => {
            return None;
        },
    };
    let (path, i4) = match parse_kv_string_x(s, n, i3, "\"path\":", Ghost("path"@)) {
        Some(p) => p,
        None => {
            return None;
        },
    };
    let i5 = match parse_comma_x(s, n, i4) {
        Some(j) => j,
        None => {
            return None;
        },
    };
    let (comment, i6) = match parse_kv_string_x(s, n, i5, "\"comment\":", Ghost("comment"@)) {
        Some(p) => p,
        None => {
            return None;
        },
    };
    let i7 = skip_ws_x(s, n, i6);
    match match_lit_x(s, n, i7, "}") {
        Some(j) => Some((ShareConfig { name, path, comment }, j)),
        None => None,
    }
}

fn parse_share_list_x(s: &str, n: usize, i: usize) -> (r: Option<(Vec<ShareConfig>, usize)>)
    requires
        n == s@.len(),
        i <= n,
    ensures
        match r {
            Some(p) => parse_share_list(s@, i as int) == Some((shares_view(p.0@), p.1 as int))
                && i <= p.1 <= n,
            None => parse_share_list(s@, i as int) is None,
        },
    decreases n - i,
{
    proof {
        reveal_strlit("]");
        assert("]"@ =~= seq![']']);
        reveal_strlit(",");
        assert(","@ =~= seq![',']);
    }
    let i0 = skip_ws_x(s, n, i);
    match match_lit_x(s, n, i0, "]") {
        Some(j) => {
            let v: Vec<ShareConfig> = Vec::new();
            assert(shares_view(v@) =~= Seq::<ShareView>::empty());
            Some((v, j))
        },
        None => {
            let (sh, j) = match parse_share_obj_x(s, n, i0) {
                Some(p) => p,
                None => {
                    return None;
                },
            };
            let j0 = skip_ws_x(s, n, j);
            match match_lit_x(s, n, j0, ",") {
                Some(j1) => {
                    match parse_share_list_x(s, n, j1) {
                        Some((rest, k)) => {
                            let mut v = rest;
                            v.insert(0, sh);
                            assert(shares_view(v@) =~= seq![sh@] + shares_view(
                                v@.subrange(1, v@.len() as int),
                            ));
                            assert(v@.subrange(1, v@.len() as int) =~= v@.remove(0));
                            assert(shares_view(v@) =~= seq![sh@] + shares_view(v@.remove(0)));
                            Some((v, k))
                        },
                        None => None,
                    }
                },
                None => {
                    match match_lit_x(s, n, j0, "]") {
                        Some(k) => {
                            let mut v: Vec<ShareConfig> = Vec::new();
                            v.push(sh);
                            assert(shares_view(v@) =~= seq![sh@]);
                            Some((v, k))
                        },
                        None => None,
                    }
                },
            }
        },
    }
}

fn parse_tail_x(s: &str, n: usize, i: usize) -> (r: Option<(Option<String>, usize)>)
    requires
        n == s@.len(),
        i <= n,
    ensures
        match r {
            Some(p) => parse_tail(s@, i as int) == Some(
                (
                    match p.0 {
                        Some(ref b) => Some(b@),
                        None => None,
                    },
                    p.1 as int,
                ),
            ) && i <= p.1 <= n,
            None => parse_tail(s@, i as int) is None,
        },
{
    proof {
        reveal_strlit("}");
        assert("}"@ =~= seq!['}']);
        reveal_strlit(",");
        assert(","@ =~= seq![',']);
        reveal_strlit("\"bind_address\":");
        reveal_strlit("bind_address");
        assert("\"bind_address\":"@ =~= key_lit("bind_address"@));
    }
    let i0 = skip_ws_x(s, n, i);
    match match_lit_x(s, n, i0, "}") {
        Some(j) => Some((None, j)),
        None => {
            let i1 = match match_lit_x(s, n, i0, ",") {
                Some(j) => j,
                None => {
                    return None;
                },
            };
            let (b, i2) = match parse_kv_string_x(
                s,
                n,
                i1,
                "\"bind_address\":",
                Ghost("bind_address"@),
            ) {
                Some(p) => p,
                None => {
                    return None;
                },
            };
            let i3 = skip_ws_x(s, n, i2);
            match match_lit_x(s, n, i3, "}") {
                Some(j) => Some((Some(b), j)),
                None => None,
            }
        },
    }
}

/// Parses a whole document into a configuration value, without
/// validating it.
#[verifier::rlimit(100)]
#[verifier::spinoff_prover]
fn parse_document_x(s: &str) -> (r: Option<ServiceConfig>)
    ensures
        match r {
            Some(c) => parse_document(s@) == Some(c@),
            None => parse_document(s@) is None,
        },
{
    proof {
        reveal_strlit("{");
        assert("{"@ =~= seq!['{']);
        reveal_strlit("[");
        assert("["@ =~= seq!['[']);
        reveal_strlit("\"service_name\":");
        reveal_strlit("service_name");
        assert("\"service_name\":"@ =~= key_lit("service_name"@));
        reveal_strlit("\"instance_name\":");
        reveal_strlit("instance_name");
        assert("\"instance_name\":"@ =~= key_lit("instance_name"@));
        reveal_strlit("\"port\":");
        reveal_strlit("port");
        assert("\"port\":"@ =~= key_lit("port"@));
        reveal_strlit("\"hostname\":");
        reveal_strlit("hostname");
        assert("\"hostname\":"@ =~= key_lit("hostname"@));
        reveal_strlit("\"workgroup\":");
        reveal_strlit("workgroup");
        assert("\"workgroup\":"@ =~= key_lit("workgroup"@));
        reveal_strlit("\"description\":");
        reveal_strlit("description");
        assert("\"description\":"@ =~= key_lit("description"@));
        reveal_strlit("\"shares\":");
        reveal_strlit("shares");
        assert("\"shares\":"@ =~= key_lit("shares"@));
    }
    let n: usize = s.unicode_len();
    let i0 = skip_ws_x(s, n, 0);
    let i1 = match match_lit_x(s, n, i0, "{") {
        Some(j) => j,
        None => {
            return None;
        },
    };
    let (sn, i2) = match parse_kv_string_x(s, n, i1, "\"service_name\":", Ghost("service_name"@)) {
        Some(p) => p,
        None => {
            return None;
        },
    };
    let i3 = match parse_comma_x(s, n, i2) {
        Some(j) => j,
        None => {
            return None;
        },
    };
    let (inst, i4) = match parse_kv_string_x(
        s,
        n,
        i3,
        "\"instance_name\":",
        Ghost("instance_name"@),
    ) {
        Some(p) => p,
        None => {
            return None;
        },
    };
    let i5 = match parse_comma_x(s, n, i4) {
        Some(j) => j,
        None => {
            return None;
        },
    };
    let i5a = skip_ws_x(s, n, i5);
    let i5b = match match_lit_x(s, n, i5a, "\"port\":") {
        Some(j) => j,
        None => {
            return None;
        },
    };
    let i5c = skip_ws_x(s, n, i5b);
    let (port, i6) = match parse_port_x(s, n, i5c) {
        Some(p) => p,
        None => {
            return None;
        },
    };
    let i7 = match parse_comma_x(s, n, i6) {
        Some(j) => j,
        None => {
            return None;
        },
    };
    let (host, i8) = match parse_kv_string_x(s, n, i7, "\"hostname\":", Ghost("hostname"@)) {
        Some(p) => p,
        None => {
            return None;
        },
    };
    let i9 = match parse_comma_x(s, n, i8) {
        Some(j) => j,
        None => {
            return None;
        },
    };
    let (wg, i10) = match parse_kv_string_x(s, n, i9, "\"workgroup\":", Ghost("workgroup"@)) {
        Some(p) => p,
        None => {
            return None;
        },
    };
    let i11 = match parse_comma_x(s, n, i10) {
        Some(j) => j,
        None => {
            return None;
        },
    };
    let (desc, i12) = match parse_kv_string_x(
        s,
        n,
        i11,
        "\"description\":",
        Ghost("description"@),
    ) {
        Some(p) => p,
        None => {
            return None;
        },
    };
    let i13 = match parse_comma_x(s, n, i12) {
        Some(j) => j,
        None => {
            return None;
        },
    };
    let i14 = skip_ws_x(s, n, i13);
    let i15 = match match_lit_x(s, n, i14, "\"shares\":") {
        Some(j) => j,
        None => {
            return None;
        },
    };
    let i16 = skip_ws_x(s, n, i15);
    let i17 = match match_lit_x(s, n, i16, "[") {
        Some(j) => j,
        None => {
            return None;
        },
    };
    let (shares, i18) = match parse_share_list_x(s, n, i17) {
        Some(p) => p,
        None => {
            return None;
        },
    };
    let (bind, i19) = match parse_tail_x(s, n, i18) {
        Some(p) => p,
        None => {
            return None;
        },
    };
    let i20 = skip_ws_x(s, n, i19);
    if i20 < n {
        return None;
    }
    let c = ServiceConfig {
        service_name: sn,
        instance_name: inst,
        port,
        hostname: host,
        workgroup: wg,
        description: desc,
        shares,
        bind_address: bind,
    };
    proof {
        assert(c@.shares =~= shares_view(shares@));
    }
    Some(c)
}
// ---------------------------------------------------------------------
// The executable encoder for the canonical pretty-printed layout.
// ---------------------------------------------------------------------
/// Escaping distributes over appending one character.
proof fn lemma_escape_snoc(s: Seq<char>, c: char)
    ensures
        escape_str(s.push(c)) == escape_str(s) + esc_char(c),
    decreases s.len(),
{
    if s.len() == 0 {
        assert(s.push(c)[0] == c);
        assert(s.push(c).skip(1) =~= Seq::<char>::empty());
        assert(escape_str(s.push(c)) =~= esc_char(c) + escape_str(s.push(c).skip(1)));
        assert(esc_char(c) + Seq::<char>::empty() =~= esc_char(c));
        assert(escape_str(s) + esc_char(c) =~= esc_char(c));
    } else {
        lemma_escape_snoc(s.skip(1), c);
        assert(s.push(c).skip(1) =~= s.skip(1).push(c));
        assert(escape_str(s.push(c)) =~= esc_char(s[0]) + (escape_str(s.skip(1)) + esc_char(c)));
        assert(esc_char(s[0]) + (escape_str(s.skip(1)) + esc_char(c)) =~= (esc_char(s[0])
            + escape_str(s.skip(1))) + esc_char(c));
    }
}

fn escape_str_x(s: &str) -> (r: String)
    ensures
        r@ == escape_str(s@),
{
    proof {
        reveal_strlit("\\\"");
        reveal_strlit("\\\\");
    }
    let n: usize = s.unicode_len();
    let mut out = String::new();
    let mut i: usize = 0;
    assert(s@.subrange(0, 0) =~= Seq::<char>::empty());
    while i < n
        invariant
            n == s@.len(),
            i <= n,
            out@ == escape_str(s@.subrange(0, i as int)),
        decreases n - i,
    {
        let c = s.get_char(i);
        if c == '"' {
            out.append("\\\"");
            proof {
                reveal_strlit("\\\"");
                assert("\\\""@ =~= esc_char('"'));
            }
        } else if c == '\\' {
            out.append("\\\\");
            proof {
                reveal_strlit("\\\\");
                assert("\\\\"@ =~= esc_char('\\'));
            }
        } else if c == '\n' {
            out.append("\\n");
            proof {
                reveal_strlit("\\n");
                assert("\\n"@ =~= esc_char('\n'));
            }
        } else if c == '\r' {
            out.append("\\r");
            proof {
                reveal_strlit("\\r");
                assert("\\r"@ =~= esc_char('\r'));
            }
        } else if c == '\t' {
            out.append("\\t");
            proof {
                reveal_strlit("\\t");
                assert("\\t"@ =~= esc_char('\t'));
            }
        } else if c == '\u{0008}' {
            out.append("\\b");
            proof {
                reveal_strlit("\\b");
                assert("\\b"@ =~= esc_char('\u{0008}'));
            }
        } else if c == '\u{000C}' {
            out.append("\\f");
            proof {
                reveal_strlit("\\f");
                assert("\\f"@ =~= esc_char('\u{000C}'));
            }
        } else {
            let piece = s.substring_char(i, i + 1);
            out.append(piece);
            proof {
                assert(piece@ =~= esc_char(s@[i as int]));
            }
        }
        proof {
            assert(s@.subrange(0, i + 1) =~= s@.subrange(0, i as int).push(s@[i as int]));
            lemma_escape_snoc(s@.subrange(0, i as int), s@[i as int]);
        }
        i += 1;
    }
    assert(s@.subrange(0, n as int) =~= s@);
    out
}

fn quoted_x(s: &str) -> (r: String)
    ensures
        r@ == quoted(s@),
{
    proof {
        reveal_strlit("\"");
        assert("\""@ =~= seq!['"']);
    }
    let body = escape_str_x(s);
    let r = "\"".to_owned().concat(body.as_str()).concat("\"");
    assert(r@ =~= quoted(s@));
    r
}

/// Writes a port value in decimal.
fn u16_string(p: u16) -> (r: String)
    ensures
        r@ == dec_str(p as int),
    decreases p,
{
    if p < 10 {
        crate::address::digit_str(p as u8).to_owned()
    } else {
        let r = u16_string(p / 10).concat(crate::address::digit_str((p % 10) as u8));
        assert(dec_str(p as int) == dec_str(p as int / 10) + seq![
            crate::address::digit_char(p as int % 10),
        ]);
        r
    }
}

fn enc_field_x(lit: &str, v: &str, Ghost(key): Ghost<Seq<char>>) -> (r: String)
    requires
        lit@ == key_lit(key),
    ensures
        r@ == enc_str_field(key, v@),
{
    proof {
        reveal_strlit(" ");
        assert(" "@ =~= seq![' ']);
    }
    let q = quoted_x(v);
    let r = lit.to_owned().concat(" ").concat(q.as_str());
    assert(r@ =~= enc_str_field(key, v@));
    r
}

fn enc_share_x(sh: &ShareConfig) -> (r: String)
    ensures
        r@ == enc_share(sh@),
{
    proof {
        reveal_strlit("\"name\":");
        reveal_strlit("name");
        assert("\"name\":"@ =~= key_lit("name"@));
        reveal_strlit("\"path\":");
        reveal_strlit("path");
        assert("\"path\":"@ =~= key_lit("path"@));
        reveal_strlit("\"comment\":");
        reveal_strlit("comment");
        assert("\"comment\":"@ =~= key_lit("comment"@));
    }
    let f_name = enc_field_x("\"name\":", sh.name.as_str(), Ghost("name"@));
    let f_path = enc_field_x("\"path\":", sh.path.as_str(), Ghost("path"@));
    let f_comment = enc_field_x("\"comment\":", sh.comment.as_str(), Ghost("comment"@));
    let r = "{\n      ".to_owned().concat(f_name.as_str()).concat(",\n      ").concat(
        f_path.as_str(),
    ).concat(",\n      ").concat(f_comment.as_str()).concat("\n    }");
    assert(r@ =~= enc_share(sh@));
    r
}

fn enc_share_items_x(shares: &Vec<ShareConfig>, i: usize) -> (r: String)
    requires
        i < shares@.len(),
    ensures
        r@ == enc_share_items(shares_view(shares@), i as int),
    decreases shares@.len() - i,
{
    let len: usize = shares.len();
    let item = enc_share_x(&shares[i]);
    if i + 1 < len {
        let rest = enc_share_items_x(shares, i + 1);
        let r = item.concat(",\n    ").concat(rest.as_str());
        assert(r@ =~= enc_share_items(shares_view(shares@), i as int));
        r
    } else {
        let r = item.concat("\n  ]");
        assert(r@ =~= enc_share_items(shares_view(shares@), i as int));
        r
    }
}

fn enc_share_list_x(shares: &Vec<ShareConfig>) -> (r: String)
    ensures
        r@ == enc_share_list(shares_view(shares@)),
{
    if shares.len() == 0 {
        "]".to_owned()
    } else {
        let items = enc_share_items_x(shares, 0);
        let r = "\n    ".to_owned().concat(items.as_str());
        assert(r@ =~= enc_share_list(shares_view(shares@)));
        r
    }
}

/// Writes a configuration in the canonical pretty-printed layout.
fn encode_document_x(c: &ServiceConfig) -> (r: String)
    ensures
        r@ == spec_encode(c@),
{
    proof {
        reveal_strlit("\"service_name\":");
        reveal_strlit("service_name");
        assert("\"service_name\":"@ =~= key_lit("service_name"@));
        reveal_strlit("\"instance_name\":");
        reveal_strlit("instance_name");
        assert("\"instance_name\":"@ =~= key_lit("instance_name"@));
        reveal_strlit("\"port\":");
        reveal_strlit("port");
        assert("\"port\":"@ =~= key_lit("port"@));
        reveal_strlit("\"hostname\":");
        reveal_strlit("hostname");
        assert("\"hostname\":"@ =~= key_lit("hostname"@));
        reveal_strlit("\"workgroup\":");
        reveal_strlit("workgroup");
        assert("\"workgroup\":"@ =~= key_lit("workgroup"@));
        reveal_strlit("\"description\":");
        reveal_strlit("description");
        assert("\"description\":"@ =~= key_lit("description"@));
        reveal_strlit("\"shares\":");
        reveal_strlit("shares");
        assert("\"shares\":"@ =~= key_lit("shares"@));
        reveal_strlit("\"bind_address\":");
        reveal_strlit("bind_address");
        assert("\"bind_address\":"@ =~= key_lit("bind_address"@));
        reveal_strlit(" [");
        assert(" ["@ =~= seq![' ', '[']);
        reveal_strlit(" ");
        assert(" "@ =~= seq![' ']);
    }
    let f_sn = enc_field_x("\"service_name\":", c.service_name.as_str(), Ghost("service_name"@));
    let f_in = enc_field_x("\"instance_name\":", c.instance_name.as_str(), Ghost("instance_name"@));
    let f_port = u16_string(c.port);
    let f_host = enc_field_x("\"hostname\":", c.hostname.as_str(), Ghost("hostname"@));
    let f_wg = enc_field_x("\"workgroup\":", c.workgroup.as_str(), Ghost("workgroup"@));
    let f_desc = enc_field_x("\"description\":", c.description.as_str(), Ghost("description"@));
    let f_shares = enc_share_list_x(&c.shares);
    let tail = match &c.bind_address {
        Some(b) => {
            let f_bind = enc_field_x("\"bind_address\":", b.as_str(), Ghost("bind_address"@));
            let t = ",\n  ".to_owned().concat(f_bind.as_str()).concat("\n}");
            assert(t@ =~= enc_tail(c@.bind_address));
            t
        },
        None => {
            let t = "\n}".to_owned();
            assert(t@ =~= enc_tail(c@.bind_address));
            t
        },
    };
    let r = "{\n  ".to_owned().concat(f_sn.as_str()).concat(",\n  ").concat(f_in.as_str()).concat(
        ",\n  ",
    ).concat("\"port\":").concat(" ").concat(f_port.as_str()).concat(",\n  ").concat(
        f_host.as_str(),
    ).concat(",\n  ").concat(f_wg.as_str()).concat(",\n  ").concat(f_desc.as_str()).concat(
        ",\n  ",
    ).concat("\"shares\":").concat(" [").concat(f_shares.as_str()).concat(tail.as_str());
    assert(r@ =~= spec_encode(c@));
    r
}
// ---------------------------------------------------------------------
// The public loading and saving surface.
// ---------------------------------------------------------------------
/// Parses a persisted configuration document and validates the result:
/// a malformed document is a parse error, a well-formed document whose
/// value breaks a validation rule reports that rule, and otherwise the
/// parsed configuration is returned.
pub fn parse_config(text: &str) -> (r: Result<ServiceConfig, MdnsError>)
    ensures
        match r {
            Ok(c) => parse_document(text@) == Some(c@) && c@.valid(),
            Err(e) => match parse_document(text@) {
                Some(v) => !v.valid() && e == MdnsError::ConfigValidation(v.first_issue()->0),
                None => e is Json,
            },
        },
{
    match parse_document_x(text) {
        Some(c) => match c.validate() {
            Ok(()) => Ok(c),
            Err(e) => Err(e),
        },
        None => Err(MdnsError::Json("malformed configuration document".to_owned())),
    }
}

/// Validates a configuration and renders it in the canonical
/// pretty-printed layout; an invalid value reports the rule it breaks
/// and nothing is rendered.
pub fn render_config(config: &ServiceConfig) -> (r: Result<String, MdnsError>)
    ensures
        match r {
            Ok(s) => config@.valid() && s@ == spec_encode(config@),
            Err(e) => !config@.valid() && e == MdnsError::ConfigValidation(
                config@.first_issue()->0,
            ),
        },
{
    match config.validate() {
        Ok(()) => Ok(encode_document_x(config)),
        Err(e) => Err(e),
    }
}

/// Save-then-load: a valid configuration survives rendering and
/// parsing unchanged, and passes validation again on the way in, so a
/// reload after a save yields a value equal in every field.
pub proof fn lemma_valid_config_round_trip(c: ConfigView)
    requires
        c.valid(),
    ensures
        parse_document(spec_encode(c)) == Some(c),
        c.first_issue() is None,
{
    lemma_encode_parse_round_trip(c);
    crate::config::lemma_valid_iff_no_issue(c);
}

/// Resolves the configuration for one run.  An explicitly-provided
/// override is validated and its validation failure surfaces to the
/// caller: no partially-valid value may reach registration.  Without
/// an override the stored document is parsed and validated, and on a
/// missing document or any load failure the built-in template is
/// substituted, so that registration is never blocked by a missing or
/// corrupt file.
pub fn resolve_config(config_override: Option<ServiceConfig>, stored_text: Option<&String>) -> (r:
    Result<ServiceConfig, MdnsError>)
    ensures
        match config_override {
            Some(c) => match r {
                Ok(rc) => c@.valid() && rc == c,
                Err(e) => !c@.valid() && e == MdnsError::ConfigValidation(c@.first_issue()->0),
            },
            None => r matches Ok(rc) && match stored_text {
                Some(t) => match parse_document(t@) {
                    Some(v) => if v.valid() {
                        rc@ == v
                    } else {
                        rc@ == crate::config::spec_default_config()
                    },
                    None => rc@ == crate::config::spec_default_config(),
                },
                None => rc@ == crate::config::spec_default_config(),
            },
        },
{
    match config_override {
        Some(c) => match c.validate() {
            Ok(()) => Ok(c),
            Err(e) => Err(e),
        },
        None => match stored_text {
            Some(t) => match parse_config(t.as_str()) {
                Ok(c) => Ok(c),
                Err(_) => Ok(ServiceConfig::default()),
            },
            None => Ok(ServiceConfig::default()),
        },
    }
}
// ---------------------------------------------------------------------
// Round-trip: parsing the canonical layout of any configuration gives
// that configuration back.  The lemmas follow the grammar bottom-up.
// ---------------------------------------------------------------------
/// Every character of `w` is whitespace.
pub open spec fn all_ws(w: Seq<char>) -> bool {
    forall|k: int| 0 <= k < w.len() ==> is_ws(#[trigger] w[k])
}

/// A slice of a matching segment matches the segment's slice.
proof fn lemma_sub_transfer(t: Seq<char>, i: int, seg: Seq<char>, a: int, b: int)
    requires
        0 <= i,
        i + seg.len() <= t.len(),
        t.subrange(i, i + seg.len()) == seg,
        0 <= a <= b <= seg.len(),
    ensures
        t.subrange(i + a, i + b) == seg.subrange(a, b),
{
    assert forall|k: int| 0 <= k < b - a implies t.subrange(i + a, i + b)[k] == seg.subrange(
        a,
        b,
    )[k] by {
        assert(t.subrange(i, i + seg.len())[a + k] == t[i + a + k]);
    }
    assert(t.subrange(i + a, i + b) =~= seg.subrange(a, b));
}

/// A character of a matching segment stands in the text.
proof fn lemma_char_transfer(t: Seq<char>, i: int, seg: Seq<char>, a: int)
    requires
        0 <= i,
        i + seg.len() <= t.len(),
        t.subrange(i, i + seg.len()) == seg,
        0 <= a < seg.len(),
    ensures
        t[i + a] == seg[a],
{
    assert(t.subrange(i, i + seg.len())[a] == t[i + a]);
}

/// Skipping whitespace over a whitespace run stops right after it.
proof fn lemma_skip_ws_run(t: Seq<char>, i: int, w: Seq<char>)
    requires
        0 <= i,
        i + w.len() <= t.len(),
        t.subrange(i, i + w.len()) == w,
        all_ws(w),
        i + w.len() == t.len() || !is_ws(t[i + w.len()]),
    ensures
        skip_ws(t, i) == i + w.len(),
    decreases w.len(),
{
    if w.len() == 0 {
    } else {
        assert(t[i] == t.subrange(i, i + w.len())[0]);
        assert(is_ws(w[0]));
        assert(t.subrange(i + 1, i + 1 + w.skip(1).len()) =~= w.skip(1));
        lemma_skip_ws_run(t, i + 1, w.skip(1));
    }
}

/// A literal standing at `i` matches there.
proof fn lemma_match_lit_at(t: Seq<char>, i: int, lit: Seq<char>)
    requires
        0 <= i,
        i + lit.len() <= t.len(),
        t.subrange(i, i + lit.len()) == lit,
    ensures
        match_lit(t, i, lit) == Some(i + lit.len()),
{
}

/// The body of a quoted string parses back to the value it encodes.
proof fn lemma_parse_str_body_at(t: Seq<char>, i: int, v: Seq<char>)
    requires
        0 <= i,
        i + escape_str(v).len() + 1 <= t.len(),
        t.subrange(i, i + escape_str(v).len()) == escape_str(v),
        t[i + escape_str(v).len()] == '"',
    ensures
        parse_str_body(t, i) == Some((v, i + escape_str(v).len() + 1)),
    decreases v.len(),
{
    let esc = escape_str(v);
    if v.len() == 0 {
        assert(esc.len() == 0);
        assert(t[i] == '"');
    } else {
        let e = esc_char(v[0]);
        let rest = escape_str(v.skip(1));
        assert(esc == e + rest);
        lemma_char_transfer(t, i, esc, 0);
        if v[0] == '"' || v[0] == '\\' || v[0] == '\n' || v[0] == '\r' || v[0] == '\t'
            || v[0] == '\u{0008}' || v[0] == '\u{000C}' {
            assert(e.len() == 2);
            assert(t[i] == '\\');
            lemma_char_transfer(t, i, esc, 1);
            assert(t[i + 1] == e[1]);
            assert(unesc(t[i + 1]) == Some(v[0]));
            lemma_sub_transfer(t, i, esc, 2, esc.len() as int);
            assert(esc.subrange(2, esc.len() as int) =~= rest);
            assert(t[i + 2 + rest.len()] == '"');
            lemma_parse_str_body_at(t, i + 2, v.skip(1));
            assert(seq![v[0]] + v.skip(1) =~= v);
        } else {
            assert(e.len() == 1);
            assert(t[i] == v[0]);
            assert(t[i] != '"' && t[i] != '\\');
            lemma_sub_transfer(t, i, esc, 1, esc.len() as int);
            assert(esc.subrange(1, esc.len() as int) =~= rest);
            assert(t[i + 1 + rest.len()] == '"');
            lemma_parse_str_body_at(t, i + 1, v.skip(1));
            assert(seq![v[0]] + v.skip(1) =~= v);
        }
    }
}

/// A quoted value standing at `i` parses back to itself.
proof fn lemma_parse_string_at(t: Seq<char>, i: int, v: Seq<char>)
    requires
        0 <= i,
        i + quoted(v).len() <= t.len(),
        t.subrange(i, i + quoted(v).len()) == quoted(v),
    ensures
        parse_string(t, i) == Some((v, i + quoted(v).len())),
{
    let q = quoted(v);
    let esc = escape_str(v);
    lemma_char_transfer(t, i, q, 0);
    assert(t[i] == '"');
    lemma_sub_transfer(t, i, q, 1, 1 + esc.len() as int);
    assert(q.subrange(1, 1 + esc.len() as int) =~= esc);
    lemma_char_transfer(t, i, q, 1 + esc.len() as int);
    assert(t[i + 1 + esc.len()] == '"');
    lemma_parse_str_body_at(t, i + 1, v);
}

/// A whitespace run, a key literal, a space and a quoted value parse as
/// one string field.
proof fn lemma_kv_string_at(t: Seq<char>, i: int, w: Seq<char>, key: Seq<char>, v: Seq<char>)
    requires
        0 <= i,
        all_ws(w),
        i + w.len() + key_lit(key).len() + 1 + quoted(v).len() <= t.len(),
        t.subrange(i, i + w.len() + key_lit(key).len() + 1 + quoted(v).len()) == w + key_lit(key)
            + seq![' '] + quoted(v),
    ensures
        parse_kv_string(t, i, key) == Some(
            (v, i + w.len() + key_lit(key).len() + 1 + quoted(v).len()),
        ),
{
    let seg = w + key_lit(key) + seq![' '] + quoted(v);
    let wl = w.len() as int;
    let kl = key_lit(key).len() as int;
    let ql = quoted(v).len() as int;
    lemma_char_transfer(t, i, seg, wl);
    assert(seg[wl] == '"');
    assert(!is_ws('"'));
    lemma_sub_transfer(t, i, seg, 0, wl);
    assert(seg.subrange(0, wl) =~= w);
    lemma_skip_ws_run(t, i, w);
    let i1 = i + wl;
    lemma_sub_transfer(t, i, seg, wl, wl + kl);
    assert(seg.subrange(wl, wl + kl) =~= key_lit(key));
    lemma_match_lit_at(t, i1, key_lit(key));
    let i2 = i1 + kl;
    lemma_char_transfer(t, i, seg, wl + kl);
    assert(seg[wl + kl] == ' ');
    lemma_char_transfer(t, i, seg, wl + kl + 1);
    assert(seg[wl + kl + 1] == '"');
    assert(t.subrange(i2, i2 + 1) =~= seq![' ']);
    assert(all_ws(seq![' ']));
    lemma_skip_ws_run(t, i2, seq![' ']);
    let i3 = i2 + 1;
    lemma_sub_transfer(t, i, seg, wl + kl + 1, wl + kl + 1 + ql);
    assert(seg.subrange(wl + kl + 1, wl + kl + 1 + ql) =~= quoted(v));
    lemma_parse_string_at(t, i3, v);
}

/// A comma standing right at `i` parses as the field separator.
proof fn lemma_comma_at(t: Seq<char>, i: int)
    requires
        0 <= i < t.len(),
        t[i] == ',',
    ensures
        parse_comma(t, i) == Some(i + 1),
{
    assert(!is_ws(','));
    assert(skip_ws(t, i) == i);
    assert(t.subrange(i, i + 1) =~= seq![',']);
    lemma_match_lit_at(t, i, seq![',']);
}
/// The decimal digits of a number: all digits, no leading zero (unless
/// the number itself is below ten), and they evaluate back to it.
proof fn lemma_dec_str_props(p: int)
    requires
        0 <= p,
    ensures
        dec_str(p).len() >= 1,
        forall|k: int| 0 <= k < dec_str(p).len() ==> is_digit(#[trigger] dec_str(p)[k]),
        p >= 10 ==> dec_str(p)[0] != '0',
        run_val(dec_str(p)) == p,
    decreases p,
{
    if p < 10 {
        assert(is_digit(digit_char(p)));
        assert(digit_val(digit_char(p)) == p);
    } else {
        lemma_dec_str_props(p / 10);
        let d = dec_str(p);
        let hd = dec_str(p / 10);
        assert(d == hd + seq![digit_char(p % 10)]);
        assert(is_digit(digit_char(p % 10)));
        assert(d[0] == hd[0]);
        if p / 10 >= 10 {
            assert(hd[0] != '0');
        } else {
            assert(hd[0] == digit_char(p / 10));
            assert(p / 10 >= 1);
        }
        assert(d.drop_last() =~= hd);
        assert(d.last() == digit_char(p % 10));
        assert(run_val(d) == run_val(hd) * 10 + digit_val(digit_char(p % 10)));
        assert(digit_val(digit_char(p % 10)) == p % 10);
        assert((p / 10) * 10 + p % 10 == p);
    }
}

/// A value that fits a port never needs more than five digits.
proof fn lemma_dec_str_len(p: int)
    requires
        0 <= p <= 65535,
    ensures
        dec_str(p).len() <= 5,
{
    if p >= 10 {
        assert(dec_str(p) == dec_str(p / 10) + seq![digit_char(p % 10)]);
        if p / 10 >= 10 {
            assert(dec_str(p / 10) == dec_str(p / 10 / 10) + seq![digit_char(p / 10 % 10)]);
            if p / 10 / 10 >= 10 {
                assert(dec_str(p / 10 / 10) == dec_str(p / 10 / 10 / 10) + seq![
                    digit_char(p / 10 / 10 % 10),
                ]);
                if p / 10 / 10 / 10 >= 10 {
                    assert(dec_str(p / 10 / 10 / 10) == dec_str(p / 10 / 10 / 10 / 10) + seq![
                        digit_char(p / 10 / 10 / 10 % 10),
                    ]);
                    assert(p / 10 / 10 / 10 / 10 < 10);
                }
            }
        }
    }
}

/// The digit run over a run of digits ends right after it.
proof fn lemma_digit_run_at(t: Seq<char>, i: int, d: Seq<char>)
    requires
        0 <= i,
        i + d.len() <= t.len(),
        t.subrange(i, i + d.len()) == d,
        forall|k: int| 0 <= k < d.len() ==> is_digit(#[trigger] d[k]),
        i + d.len() == t.len() || !is_digit(t[i + d.len()]),
    ensures
        digit_run_end(t, i) == i + d.len(),
    decreases d.len(),
{
    if d.len() == 0 {
    } else {
        lemma_char_transfer(t, i, d, 0);
        lemma_sub_transfer(t, i, d, 1, d.len() as int);
        assert(d.subrange(1, d.len() as int) =~= d.skip(1));
        assert forall|k: int| 0 <= k < d.skip(1).len() implies is_digit(
            #[trigger] d.skip(1)[k],
        ) by {
            assert(d.skip(1)[k] == d[k + 1]);
        }
        lemma_digit_run_at(t, i + 1, d.skip(1));
    }
}

/// A port written in decimal parses back to itself when followed by a
/// non-digit.
proof fn lemma_port_at(t: Seq<char>, i: int, p: u16)
    requires
        0 <= i,
        i + dec_str(p as int).len() <= t.len(),
        t.subrange(i, i + dec_str(p as int).len()) == dec_str(p as int),
        i + dec_str(p as int).len() == t.len() || !is_digit(t[i + dec_str(p as int).len()]),
    ensures
        parse_port(t, i) == Some((p, i + dec_str(p as int).len())),
{
    let d = dec_str(p as int);
    lemma_dec_str_props(p as int);
    lemma_dec_str_len(p as int);
    lemma_digit_run_at(t, i, d);
    assert(t.subrange(i, i + d.len()) == d);
    assert(run_val(t.subrange(i, digit_run_end(t, i))) == p as int);
    if d.len() > 1 {
        lemma_char_transfer(t, i, d, 0);
        assert(t[i] != '0');
    }
}

/// Whitespace facts about the concrete gaps of the canonical layout.
proof fn lemma_ws_lits()
    ensures
        all_ws("\n      "@),
        all_ws("\n    "@),
        all_ws("\n  "@),
        all_ws("\n"@),
        "\n      "@.len() == 7,
        "\n    "@.len() == 5,
        "\n  "@.len() == 3,
        "\n"@.len() == 1,
{
    reveal_strlit("\n      ");
    reveal_strlit("\n    ");
    reveal_strlit("\n  ");
    reveal_strlit("\n");
}

/// A share object in the canonical layout parses back to itself.
#[verifier::rlimit(60)]
proof fn lemma_share_obj_at(t: Seq<char>, i: int, sh: ShareView)
    requires
        0 <= i,
        i + enc_share(sh).len() <= t.len(),
        t.subrange(i, i + enc_share(sh).len()) == enc_share(sh),
    ensures
        parse_share_obj(t, i) == Some((sh, i + enc_share(sh).len())),
{
    lemma_ws_lits();
    reveal_strlit("{\n      ");
    reveal_strlit(",\n      ");
    reveal_strlit("\n    }");
    reveal_strlit("\n      ");
    reveal_strlit("\n    ");
    let seg = enc_share(sh);
    let w = "\n      "@;
    let f1 = enc_str_field("name"@, sh.name);
    let f2 = enc_str_field("path"@, sh.path);
    let f3 = enc_str_field("comment"@, sh.comment);
    let l1 = f1.len() as int;
    let l2 = f2.len() as int;
    let l3 = f3.len() as int;
    assert(seg =~= seq!['{'] + w + f1 + seq![','] + w + f2 + seq![','] + w + f3 + "\n    "@
        + seq!['}']);
    assert(seg.len() == 1 + 7 + l1 + 1 + 7 + l2 + 1 + 7 + l3 + 5 + 1);
    // the opening brace
    lemma_sub_transfer(t, i, seg, 0, 1);
    assert(seg.subrange(0, 1) =~= seq!['{']);
    lemma_match_lit_at(t, i, seq!['{']);
    // the name field
    lemma_sub_transfer(t, i, seg, 1, 1 + 7 + l1);
    assert(seg.subrange(1, 1 + 7 + l1) =~= w + key_lit("name"@) + seq![' '] + quoted(sh.name));
    lemma_kv_string_at(t, i + 1, w, "name"@, sh.name);
    let i2 = i + 1 + 7 + l1;
    // the first comma
    lemma_char_transfer(t, i, seg, 1 + 7 + l1);
    assert(seg[1 + 7 + l1] == ',');
    lemma_comma_at(t, i2);
    // the path field
    lemma_sub_transfer(t, i, seg, 1 + 7 + l1 + 1, 1 + 7 + l1 + 1 + 7 + l2);
    assert(seg.subrange(1 + 7 + l1 + 1, 1 + 7 + l1 + 1 + 7 + l2) =~= w + key_lit("path"@)
        + seq![' '] + quoted(sh.path));
    lemma_kv_string_at(t, i2 + 1, w, "path"@, sh.path);
    let i4 = i2 + 1 + 7 + l2;
    // the second comma
    lemma_char_transfer(t, i, seg, 1 + 7 + l1 + 1 + 7 + l2);
    assert(seg[1 + 7 + l1 + 1 + 7 + l2] == ',');
    lemma_comma_at(t, i4);
    // the comment field
    lemma_sub_transfer(t, i, seg, 1 + 7 + l1 + 1 + 7 + l2 + 1, 1 + 7 + l1 + 1 + 7 + l2 + 1 + 7
        + l3);
    assert(seg.subrange(1 + 7 + l1 + 1 + 7 + l2 + 1, 1 + 7 + l1 + 1 + 7 + l2 + 1 + 7 + l3) =~= w
        + key_lit("comment"@) + seq![' '] + quoted(sh.comment));
    lemma_kv_string_at(t, i4 + 1, w, "comment"@, sh.comment);
    let i6 = i4 + 1 + 7 + l3;
    // the closing whitespace and brace
    lemma_sub_transfer(t, i, seg, 1 + 7 + l1 + 1 + 7 + l2 + 1 + 7 + l3, 1 + 7 + l1 + 1 + 7 + l2
        + 1 + 7 + l3 + 5);
    assert(seg.subrange(1 + 7 + l1 + 1 + 7 + l2 + 1 + 7 + l3, 1 + 7 + l1 + 1 + 7 + l2 + 1 + 7
        + l3 + 5) =~= "\n    "@);
    lemma_char_transfer(t, i, seg, 1 + 7 + l1 + 1 + 7 + l2 + 1 + 7 + l3 + 5);
    assert(seg[1 + 7 + l1 + 1 + 7 + l2 + 1 + 7 + l3 + 5] == '}');
    assert(!is_ws('}'));
    lemma_skip_ws_run(t, i6, "\n    "@);
    let i7 = i6 + 5;
    assert(t.subrange(i7, i7 + 1) =~= seq!['}']);
    lemma_match_lit_at(t, i7, seq!['}']);
}
/// The items of the shares array from index `k` on, preceded by their
/// leading newline, parse back to the remaining shares.
#[verifier::rlimit(60)]
proof fn lemma_share_items_at(t: Seq<char>, i: int, shares: Seq<ShareView>, k: int)
    requires
        0 <= k < shares.len(),
        0 <= i,
        i + 5 + enc_share_items(shares, k).len() <= t.len(),
        t.subrange(i, i + 5 + enc_share_items(shares, k).len()) == "\n    "@ + enc_share_items(
            shares,
            k,
        ),
    ensures
        parse_share_list(t, i) == Some(
            (shares.skip(k), i + 5 + enc_share_items(shares, k).len()),
        ),
    decreases shares.len() - k,
{
    lemma_ws_lits();
    reveal_strlit("{\n      ");
    reveal_strlit(",\n    ");
    reveal_strlit("\n  ]");
    reveal_strlit("\n    ");
    reveal_strlit("\n  ");
    let seg = "\n    "@ + enc_share_items(shares, k);
    let sh = shares[k];
    let es = enc_share(sh);
    let esl = es.len() as int;
    assert(es[0] == '{');
    assert(es.len() >= 1);
    if k + 1 < shares.len() {
        assert(enc_share_items(shares, k) == es + ",\n    "@ + enc_share_items(shares, k + 1));
    } else {
        assert(enc_share_items(shares, k) == es + "\n  ]"@);
    }
    // leading whitespace, then the opening brace of the share
    lemma_sub_transfer(t, i, seg, 0, 5);
    assert(seg.subrange(0, 5) =~= "\n    "@);
    lemma_char_transfer(t, i, seg, 5);
    assert(seg[5] == es[0]);
    assert(!is_ws('{'));
    lemma_skip_ws_run(t, i, "\n    "@);
    let i0 = i + 5;
    assert(skip_ws(t, i) == i0);
    // the closing bracket does not match here
    assert(t[i0] == '{');
    assert(t.subrange(i0, i0 + 1)[0] == t[i0]);
    assert(match_lit(t, i0, seq![']']) is None);
    // the share object itself
    if k + 1 < shares.len() {
        assert(enc_share_items(shares, k) == es + ",\n    "@ + enc_share_items(shares, k + 1));
        lemma_sub_transfer(t, i, seg, 5, 5 + esl);
        assert(seg.subrange(5, 5 + esl) =~= es);
        lemma_share_obj_at(t, i0, sh);
        let j = i0 + esl;
        // the comma and the rest of the items
        lemma_char_transfer(t, i, seg, 5 + esl);
        assert(seg[5 + esl] == ',');
        assert(!is_ws(','));
        assert(skip_ws(t, j) == j);
        assert(t.subrange(j, j + 1) =~= seq![',']);
        lemma_match_lit_at(t, j, seq![',']);
        let j1 = j + 1;
        lemma_sub_transfer(t, i, seg, 5 + esl + 1, seg.len() as int);
        assert(seg.subrange(5 + esl + 1, seg.len() as int) =~= "\n    "@ + enc_share_items(
            shares,
            k + 1,
        ));
        lemma_share_items_at(t, j1, shares, k + 1);
        assert(seq![sh] + shares.skip(k + 1) =~= shares.skip(k));
    } else {
        assert(enc_share_items(shares, k) == es + "\n  ]"@);
        lemma_sub_transfer(t, i, seg, 5, 5 + esl);
        assert(seg.subrange(5, 5 + esl) =~= es);
        lemma_share_obj_at(t, i0, sh);
        let j = i0 + esl;
        // closing whitespace and bracket; no comma follows
        reveal_strlit("\n  ]");
        lemma_sub_transfer(t, i, seg, 5 + esl, 5 + esl + 3);
        assert(seg.subrange(5 + esl, 5 + esl + 3) =~= "\n  "@);
        lemma_char_transfer(t, i, seg, 5 + esl + 3);
        assert(seg[5 + esl + 3] == ']');
        assert(!is_ws(']'));
        lemma_skip_ws_run(t, j, "\n  "@);
        let j0 = j + 3;
        assert(t[j0] == ']');
        assert(t.subrange(j0, j0 + 1)[0] == t[j0]);
        assert(match_lit(t, j0, seq![',']) is None);
        assert(t.subrange(j0, j0 + 1) =~= seq![']']);
        lemma_match_lit_at(t, j0, seq![']']);
        assert(seq![sh] =~= shares.skip(k));
    }
}

/// The encoded shares array parses back to the share sequence.
proof fn lemma_share_list_at(t: Seq<char>, i: int, shares: Seq<ShareView>)
    requires
        0 <= i,
        i + enc_share_list(shares).len() <= t.len(),
        t.subrange(i, i + enc_share_list(shares).len()) == enc_share_list(shares),
    ensures
        parse_share_list(t, i) == Some((shares, i + enc_share_list(shares).len())),
{
    lemma_ws_lits();
    reveal_strlit("]");
    if shares.len() == 0 {
        assert(enc_share_list(shares) =~= seq![']']);
        lemma_char_transfer(t, i, enc_share_list(shares), 0);
        assert(t[i] == ']');
        assert(!is_ws(']'));
        assert(skip_ws(t, i) == i);
        assert(t.subrange(i, i + 1) =~= seq![']']);
        lemma_match_lit_at(t, i, seq![']']);
        assert(shares =~= Seq::<ShareView>::empty());
    } else {
        lemma_share_items_at(t, i, shares, 0);
        assert(shares.skip(0) =~= shares);
    }
}

/// The encoded tail parses back to the optional bind address.
#[verifier::rlimit(60)]
proof fn lemma_tail_at(t: Seq<char>, i: int, bind: Option<Seq<char>>)
    requires
        0 <= i,
        i + enc_tail(bind).len() <= t.len(),
        t.subrange(i, i + enc_tail(bind).len()) == enc_tail(bind),
    ensures
        parse_tail(t, i) == Some((bind, i + enc_tail(bind).len())),
{
    lemma_ws_lits();
    let seg = enc_tail(bind);
    match bind {
        None => {
            reveal_strlit("\n}");
            reveal_strlit("\n");
            assert(seg =~= "\n"@ + seq!['}']);
            lemma_sub_transfer(t, i, seg, 0, 1);
            assert(seg.subrange(0, 1) =~= "\n"@);
            lemma_char_transfer(t, i, seg, 1);
            assert(seg[1] == '}');
            assert(!is_ws('}'));
            lemma_skip_ws_run(t, i, "\n"@);
            let i0 = i + 1;
            assert(t.subrange(i0, i0 + 1) =~= seq!['}']);
            lemma_match_lit_at(t, i0, seq!['}']);
        },
        Some(b) => {
            reveal_strlit(",\n  ");
            reveal_strlit("\n}");
            reveal_strlit("\n");
            reveal_strlit("\n  ");
            let f = enc_str_field("bind_address"@, b);
            let fl = f.len() as int;
            assert(seg =~= seq![','] + "\n  "@ + f + "\n"@ + seq!['}']);
            assert(seg.len() == 1 + 3 + fl + 1 + 1);
            // the comma first: the closing brace does not match here
            lemma_char_transfer(t, i, seg, 0);
            assert(seg[0] == ',');
            assert(!is_ws(','));
            assert(skip_ws(t, i) == i);
            assert(t.subrange(i, i + 1)[0] == t[i]);
            assert(match_lit(t, i, seq!['}']) is None);
            assert(t.subrange(i, i + 1) =~= seq![',']);
            lemma_match_lit_at(t, i, seq![',']);
            // the bind-address field
            lemma_sub_transfer(t, i, seg, 1, 1 + 3 + fl);
            assert(seg.subrange(1, 1 + 3 + fl) =~= "\n  "@ + key_lit("bind_address"@)
                + seq![' '] + quoted(b));
            lemma_kv_string_at(t, i + 1, "\n  "@, "bind_address"@, b);
            let i2 = i + 1 + 3 + fl;
            // the closing whitespace and brace
            lemma_sub_transfer(t, i, seg, 1 + 3 + fl, 1 + 3 + fl + 1);
            assert(seg.subrange(1 + 3 + fl, 1 + 3 + fl + 1) =~= "\n"@);
            lemma_char_transfer(t, i, seg, 1 + 3 + fl + 1);
            assert(seg[1 + 3 + fl + 1] == '}');
            assert(!is_ws('}'));
            lemma_skip_ws_run(t, i2, "\n"@);
            let i3 = i2 + 1;
            assert(t.subrange(i3, i3 + 1) =~= seq!['}']);
            lemma_match_lit_at(t, i3, seq!['}']);
        },
    }
}
/// The shares field, the tail and the end of the document parse back
/// to the encoded configuration.
#[verifier::rlimit(80)]
proof fn lemma_document_shares_at(t: Seq<char>, i: int, c: ConfigView)
    requires
        0 <= i <= t.len(),
        t.subrange(i, t.len() as int) == "\n  "@ + key_lit("shares"@) + seq![' ', '[']
            + enc_share_list(c.shares) + enc_tail(c.bind_address),
    ensures
        parse_document_shares(
            t,
            i,
            c.service_name,
            c.instance_name,
            c.port,
            c.hostname,
            c.workgroup,
            c.description,
        ) == Some(c),
{
    lemma_ws_lits();
    reveal_strlit("\n  ");
    let seg = "\n  "@ + key_lit("shares"@) + seq![' ', '['] + enc_share_list(c.shares)
        + enc_tail(c.bind_address);
    let ks = key_lit("shares"@).len() as int;
    let ll = enc_share_list(c.shares).len() as int;
    let tl = enc_tail(c.bind_address).len() as int;
    assert(seg.len() == 3 + ks + 2 + ll + tl);
    assert(t.len() == i + seg.len());
    // leading whitespace, then the key
    lemma_sub_transfer(t, i, seg, 0, 3);
    assert(seg.subrange(0, 3) =~= "\n  "@);
    lemma_char_transfer(t, i, seg, 3);
    assert(seg[3] == '"');
    assert(!is_ws('"'));
    lemma_skip_ws_run(t, i, "\n  "@);
    let i1 = i + 3;
    lemma_sub_transfer(t, i, seg, 3, 3 + ks);
    assert(seg.subrange(3, 3 + ks) =~= key_lit("shares"@));
    lemma_match_lit_at(t, i1, key_lit("shares"@));
    let i2 = i1 + ks;
    // the space and the opening bracket
    lemma_char_transfer(t, i, seg, 3 + ks);
    assert(seg[3 + ks] == ' ');
    lemma_char_transfer(t, i, seg, 3 + ks + 1);
    assert(seg[3 + ks + 1] == '[');
    assert(!is_ws('['));
    assert(t.subrange(i2, i2 + 1) =~= seq![' ']);
    assert(all_ws(seq![' ']));
    lemma_skip_ws_run(t, i2, seq![' ']);
    assert(t.subrange(i2 + 1, i2 + 2) =~= seq!['[']);
    lemma_match_lit_at(t, i2 + 1, seq!['[']);
    let i3 = i2 + 2;
    // the share list
    lemma_sub_transfer(t, i, seg, 3 + ks + 2, 3 + ks + 2 + ll);
    assert(seg.subrange(3 + ks + 2, 3 + ks + 2 + ll) =~= enc_share_list(c.shares));
    lemma_share_list_at(t, i3, c.shares);
    let i4 = i3 + ll;
    // the tail
    lemma_sub_transfer(t, i, seg, 3 + ks + 2 + ll, 3 + ks + 2 + ll + tl);
    assert(seg.subrange(3 + ks + 2 + ll, 3 + ks + 2 + ll + tl) =~= enc_tail(c.bind_address));
    lemma_tail_at(t, i4, c.bind_address);
    let i5 = i4 + tl;
    // nothing after the closing brace
    assert(i5 == t.len());
    assert(skip_ws(t, i5) == i5);
}

/// The document as one flat concatenation of its tokens.
pub open spec fn doc_flat(c: ConfigView) -> Seq<char> {
    seq!['{'] + "\n  "@ + enc_str_field("service_name"@, c.service_name) + seq![','] + "\n  "@
        + enc_str_field("instance_name"@, c.instance_name) + seq![','] + "\n  "@ + key_lit(
        "port"@,
    ) + seq![' '] + dec_str(c.port as int) + seq![','] + "\n  "@ + enc_str_field(
        "hostname"@,
        c.hostname,
    ) + seq![','] + "\n  "@ + enc_str_field("workgroup"@, c.workgroup) + seq![','] + "\n  "@
        + enc_str_field("description"@, c.description) + seq![','] + "\n  "@ + key_lit("shares"@)
        + seq![' ', '['] + enc_share_list(c.shares) + enc_tail(c.bind_address)
}

/// The first half of the document: brace, names and port.
#[verifier::rlimit(100)]
#[verifier::spinoff_prover]
proof fn lemma_doc_first_half(t: Seq<char>, c: ConfigView)
    requires
        t == doc_flat(c),
    ensures
        skip_ws(t, 0) == 0,
        match_lit(t, 0, seq!['{']) == Some(1int),
        parse_kv_string(t, 1, "service_name"@) == Some(
            (c.service_name, 4 + enc_str_field("service_name"@, c.service_name).len() as int),
        ),
        parse_comma(t, 4 + enc_str_field("service_name"@, c.service_name).len() as int) == Some(
            5 + enc_str_field("service_name"@, c.service_name).len() as int,
        ),
        parse_kv_string(t, 5 + enc_str_field("service_name"@, c.service_name).len() as int,
            "instance_name"@) == Some(
            (
                c.instance_name,
                8 + enc_str_field("service_name"@, c.service_name).len() + enc_str_field(
                    "instance_name"@,
                    c.instance_name,
                ).len() as int,
            ),
        ),
        parse_comma(t, 8 + enc_str_field("service_name"@, c.service_name).len() + enc_str_field(
            "instance_name"@, c.instance_name).len() as int) == Some(
            9 + enc_str_field("service_name"@, c.service_name).len() + enc_str_field(
                "instance_name"@,
                c.instance_name,
            ).len() as int,
        ),
        parse_kv_port(t, 9 + enc_str_field("service_name"@, c.service_name).len()
            + enc_str_field("instance_name"@, c.instance_name).len() as int) == Some(
            (
                c.port,
                13 + enc_str_field("service_name"@, c.service_name).len() + enc_str_field(
                    "instance_name"@,
                    c.instance_name,
                ).len() + key_lit("port"@).len() + dec_str(c.port as int).len() as int,
            ),
        ),
        parse_comma(t, 13 + enc_str_field("service_name"@, c.service_name).len()
            + enc_str_field("instance_name"@, c.instance_name).len() + key_lit("port"@).len()
            + dec_str(c.port as int).len() as int) == Some(
            14 + enc_str_field("service_name"@, c.service_name).len() + enc_str_field(
                "instance_name"@,
                c.instance_name,
            ).len() + key_lit("port"@).len() + dec_str(c.port as int).len() as int,
        ),
{
    lemma_ws_lits();
    reveal_strlit("\n  ");
    let w = "\n  "@;
    let f_sn = enc_str_field("service_name"@, c.service_name);
    let f_in = enc_str_field("instance_name"@, c.instance_name);
    let kp = key_lit("port"@);
    let d = dec_str(c.port as int);
    let lsn = f_sn.len() as int;
    let lin = f_in.len() as int;
    let lkp = kp.len() as int;
    let ld = d.len() as int;
    assert(t[0] == '{');
    assert(!is_ws('{'));
    assert(t.subrange(0, 1) =~= seq!['{']);
    lemma_match_lit_at(t, 0, seq!['{']);
    assert(t.subrange(1, 1 + 3 + lsn) =~= w + key_lit("service_name"@) + seq![' '] + quoted(
        c.service_name,
    ));
    lemma_kv_string_at(t, 1, w, "service_name"@, c.service_name);
    let p1 = 4 + lsn;
    assert(t[p1] == ',');
    lemma_comma_at(t, p1);
    let p2 = p1 + 1;
    assert(t.subrange(p2, p2 + 3 + lin) =~= w + key_lit("instance_name"@) + seq![' '] + quoted(
        c.instance_name,
    ));
    lemma_kv_string_at(t, p2, w, "instance_name"@, c.instance_name);
    let p3 = p2 + 3 + lin;
    assert(t[p3] == ',');
    lemma_comma_at(t, p3);
    let p4 = p3 + 1;
    assert(t.subrange(p4, p4 + 3) =~= w);
    assert(t[p4 + 3] == '"');
    assert(!is_ws('"'));
    lemma_skip_ws_run(t, p4, w);
    let p4a = p4 + 3;
    assert(t.subrange(p4a, p4a + lkp) =~= kp);
    lemma_match_lit_at(t, p4a, kp);
    let p5 = p4a + lkp;
    assert(t[p5] == ' ');
    lemma_dec_str_props(c.port as int);
    assert(t[p5 + 1] == d[0]);
    assert(is_digit(d[0]));
    assert(!is_ws(d[0]));
    assert(t.subrange(p5, p5 + 1) =~= seq![' ']);
    assert(all_ws(seq![' ']));
    lemma_skip_ws_run(t, p5, seq![' ']);
    let p5a = p5 + 1;
    assert(t.subrange(p5a, p5a + ld) =~= d);
    assert(t[p5a + ld] == ',');
    assert(!is_digit(','));
    lemma_port_at(t, p5a, c.port);
    let p6 = p5a + ld;
    lemma_comma_at(t, p6);
}

/// The second half of the document: the remaining names, the shares
/// and the tail.
#[verifier::rlimit(100)]
#[verifier::spinoff_prover]
proof fn lemma_doc_second_half(t: Seq<char>, c: ConfigView, p7: int)
    requires
        t == doc_flat(c),
        p7 == 14 + enc_str_field("service_name"@, c.service_name).len() + enc_str_field(
            "instance_name"@,
            c.instance_name,
        ).len() + key_lit("port"@).len() + dec_str(c.port as int).len() as int,
    ensures
        parse_kv_string(t, p7, "hostname"@) == Some(
            (c.hostname, p7 + 3 + enc_str_field("hostname"@, c.hostname).len() as int),
        ),
        parse_comma(t, p7 + 3 + enc_str_field("hostname"@, c.hostname).len() as int) == Some(
            p7 + 4 + enc_str_field("hostname"@, c.hostname).len() as int,
        ),
        parse_kv_string(t, p7 + 4 + enc_str_field("hostname"@, c.hostname).len() as int,
            "workgroup"@) == Some(
            (
                c.workgroup,
                p7 + 7 + enc_str_field("hostname"@, c.hostname).len() + enc_str_field(
                    "workgroup"@,
                    c.workgroup,
                ).len() as int,
            ),
        ),
        parse_comma(t, p7 + 7 + enc_str_field("hostname"@, c.hostname).len() + enc_str_field(
            "workgroup"@, c.workgroup).len() as int) == Some(
            p7 + 8 + enc_str_field("hostname"@, c.hostname).len() + enc_str_field(
                "workgroup"@,
                c.workgroup,
            ).len() as int,
        ),
        parse_kv_string(t, p7 + 8 + enc_str_field("hostname"@, c.hostname).len()
            + enc_str_field("workgroup"@, c.workgroup).len() as int, "description"@) == Some(
            (
                c.description,
                p7 + 11 + enc_str_field("hostname"@, c.hostname).len() + enc_str_field(
                    "workgroup"@,
                    c.workgroup,
                ).len() + enc_str_field("description"@, c.description).len() as int,
            ),
        ),
        parse_comma(t, p7 + 11 + enc_str_field("hostname"@, c.hostname).len() + enc_str_field(
            "workgroup"@, c.workgroup).len() + enc_str_field("description"@,
            c.description).len() as int) == Some(
            p7 + 12 + enc_str_field("hostname"@, c.hostname).len() + enc_str_field(
                "workgroup"@,
                c.workgroup,
            ).len() + enc_str_field("description"@, c.description).len() as int,
        ),
        parse_document_shares(
            t,
            p7 + 12 + enc_str_field("hostname"@, c.hostname).len() + enc_str_field(
                "workgroup"@,
                c.workgroup,
            ).len() + enc_str_field("description"@, c.description).len() as int,
            c.service_name,
            c.instance_name,
            c.port,
            c.hostname,
            c.workgroup,
            c.description,
        ) == Some(c),
{
    lemma_ws_lits();
    reveal_strlit("\n  ");
    let w = "\n  "@;
    let f_h = enc_str_field("hostname"@, c.hostname);
    let f_wg = enc_str_field("workgroup"@, c.workgroup);
    let f_d = enc_str_field("description"@, c.description);
    let lh = f_h.len() as int;
    let lwg = f_wg.len() as int;
    let ldc = f_d.len() as int;
    assert(t.subrange(p7, p7 + 3 + lh) =~= w + key_lit("hostname"@) + seq![' '] + quoted(
        c.hostname,
    ));
    lemma_kv_string_at(t, p7, w, "hostname"@, c.hostname);
    let p8 = p7 + 3 + lh;
    assert(t[p8] == ',');
    lemma_comma_at(t, p8);
    let p9 = p8 + 1;
    assert(t.subrange(p9, p9 + 3 + lwg) =~= w + key_lit("workgroup"@) + seq![' '] + quoted(
        c.workgroup,
    ));
    lemma_kv_string_at(t, p9, w, "workgroup"@, c.workgroup);
    let p10 = p9 + 3 + lwg;
    assert(t[p10] == ',');
    lemma_comma_at(t, p10);
    let p11 = p10 + 1;
    assert(t.subrange(p11, p11 + 3 + ldc) =~= w + key_lit("description"@) + seq![' '] + quoted(
        c.description,
    ));
    lemma_kv_string_at(t, p11, w, "description"@, c.description);
    let p12 = p11 + 3 + ldc;
    assert(t[p12] == ',');
    lemma_comma_at(t, p12);
    let p13 = p12 + 1;
    assert(t.subrange(p13, t.len() as int) =~= w + key_lit("shares"@) + seq![' ', '[']
        + enc_share_list(c.shares) + enc_tail(c.bind_address));
    lemma_document_shares_at(t, p13, c);
}

/// The canonical layout is the flat token concatenation.
#[verifier::rlimit(100)]
#[verifier::spinoff_prover]
proof fn lemma_doc_flat(c: ConfigView)
    ensures
        spec_encode(c) == doc_flat(c),
{
    reveal_strlit("{\n  ");
    reveal_strlit(",\n  ");
    reveal_strlit("\n  ");
    assert(spec_encode(c) =~= doc_flat(c));
}

/// Round trip: parsing the canonical layout of any configuration gives
/// exactly that configuration back.
#[verifier::rlimit(100)]
#[verifier::spinoff_prover]
pub proof fn lemma_encode_parse_round_trip(c: ConfigView)
    ensures
        parse_document(spec_encode(c)) == Some(c),
{
    let t = spec_encode(c);
    lemma_doc_flat(c);
    lemma_doc_first_half(t, c);
    let p7 = 14 + enc_str_field("service_name"@, c.service_name).len() + enc_str_field(
        "instance_name"@,
        c.instance_name,
    ).len() + key_lit("port"@).len() + dec_str(c.port as int).len() as int;
    lemma_doc_second_half(t, c, p7);
}
} // verus!
