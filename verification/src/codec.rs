//! The persistence codec: the configuration document as pretty-printed JSON,
//! and the parser that reads it back.  The format is the fixed layout that
//! `to_json` emits; `lemma_doc_round_trip` proves that parsing what was
//! printed restores the document exactly.

use vstd::prelude::*;
use std::collections::VecDeque;
use crate::errors::ProxyCatError;
use crate::pac::{
    BypassListItem, BypassListItemView, ExternalPacFunction, ExternalPacFunctionItem,
    ExternalPacFunctionItemView, ExternalPacFunctionView, PacConfig, PacConfigView, ProxyRule,
    ProxyRuleItem, ProxyRuleItemView, ProxyRuleView,
};
use crate::strutil::{
    chars_of, dec_digits, digit_val, is_digit, lemma_dec_digits, lemma_val_prefix, push_str_chars,
    push_u16, string_from_chars, val_of_digits,
};

verus! {

// ---------------------------------------------------------------------------
// String escaping
// ---------------------------------------------------------------------------

/// The escape sequence of one character inside a JSON string literal: quote,
/// backslash, newline, carriage return and tab are escaped, everything else
/// passes through.
pub open spec fn esc_char(c: char) -> Seq<char> {
    if c == '"' {
        seq!['\\', '"']
    } else if c == '\\' {
        seq!['\\', '\\']
    } else if c == '\n' {
        seq!['\\', 'n']
    } else if c == '\r' {
        seq!['\\', 'r']
    } else if c == '\t' {
        seq!['\\', 't']
    } else {
        seq![c]
    }
}

/// The escaped form of a string body.
pub open spec fn esc(s: Seq<char>) -> Seq<char>
    decreases s.len(),
{
    if s.len() == 0 {
        Seq::empty()
    } else {
        esc_char(s[0]) + esc(s.skip(1))
    }
}

/// A quoted JSON string literal.
pub open spec fn q(s: Seq<char>) -> Seq<char> {
    seq!['"'] + esc(s) + seq!['"']
}

/// The character an escape code stands for, if it is one we emit.
pub open spec fn decode_escape(c: char) -> Option<char> {
    if c == '"' {
        Some('"')
    } else if c == '\\' {
        Some('\\')
    } else if c == 'n' {
        Some('\n')
    } else if c == 'r' {
        Some('\r')
    } else if c == 't' {
        Some('\t')
    } else {
        None
    }
}

// ---------------------------------------------------------------------------
// The fixed layout pieces
// ---------------------------------------------------------------------------

pub open spec fn lit_doc_open() -> Seq<char> {
    "{\n  \"proxy_rules\": "@
}

pub open spec fn lit_doc_bypass() -> Seq<char> {
    ",\n  \"bypass_list\": "@
}

pub open spec fn lit_doc_ext() -> Seq<char> {
    ",\n  \"external_pac_functions\": "@
}

pub open spec fn lit_doc_close() -> Seq<char> {
    "\n}"@
}

pub open spec fn lit_arr_empty() -> Seq<char> {
    "[]"@
}

pub open spec fn lit_arr_open() -> Seq<char> {
    "[\n"@
}

pub open spec fn lit_arr_close() -> Seq<char> {
    "\n  ]"@
}

pub open spec fn lit_sep() -> Seq<char> {
    ",\n"@
}

pub open spec fn lit_rule_a() -> Seq<char> {
    "    {\n      \"rule\": {\n        \"host\": "@
}

pub open spec fn lit_rule_b() -> Seq<char> {
    ",\n        \"proxy_host\": "@
}

pub open spec fn lit_rule_c() -> Seq<char> {
    ",\n        \"proxy_port\": "@
}

pub open spec fn lit_rule_d() -> Seq<char> {
    "\n      },\n      \"enabled\": "@
}

pub open spec fn lit_item_close() -> Seq<char> {
    "\n    }"@
}

pub open spec fn lit_byp_a() -> Seq<char> {
    "    {\n      \"host\": "@
}

pub open spec fn lit_byp_b() -> Seq<char> {
    ",\n      \"enabled\": "@
}

pub open spec fn lit_ext_a() -> Seq<char> {
    "    {\n      \"function\": {\n        \"original_url\": "@
}

pub open spec fn lit_ext_b() -> Seq<char> {
    ",\n        \"function_name\": "@
}

pub open spec fn lit_ext_c() -> Seq<char> {
    ",\n        \"function_text\": "@
}

pub open spec fn lit_ext_d() -> Seq<char> {
    "\n      },\n      \"enabled\": "@
}

/// A JSON boolean.
pub open spec fn bool_json(b: bool) -> Seq<char> {
    if b {
        "true"@
    } else {
        "false"@
    }
}

// ---------------------------------------------------------------------------
// The printer
// ---------------------------------------------------------------------------

/// One proxy-rule item, rendered.
pub open spec fn rule_item_json() -> spec_fn(ProxyRuleItemView) -> Seq<char> {
    |it: ProxyRuleItemView|
        lit_rule_a() + q(it.rule.host) + lit_rule_b() + q(it.rule.proxy_host) + lit_rule_c()
            + dec_digits(it.rule.proxy_port as nat) + lit_rule_d() + bool_json(it.enabled)
            + lit_item_close()
}

/// One bypass item, rendered.
pub open spec fn bypass_item_json() -> spec_fn(BypassListItemView) -> Seq<char> {
    |it: BypassListItemView|
        lit_byp_a() + q(it.host) + lit_byp_b() + bool_json(it.enabled) + lit_item_close()
}

/// One external-function item, rendered.
pub open spec fn ext_item_json() -> spec_fn(ExternalPacFunctionItemView) -> Seq<char> {
    |it: ExternalPacFunctionItemView|
        lit_ext_a() + q(it.function.original_url) + lit_ext_b() + q(it.function.function_name)
            + lit_ext_c() + q(it.function.function_text) + lit_ext_d() + bool_json(it.enabled)
            + lit_item_close()
}

/// The items of a nonempty array, separated by `,\n`.
pub open spec fn items_joined<A>(items: Seq<A>, render: spec_fn(A) -> Seq<char>) -> Seq<char>
    decreases items.len(),
{
    if items.len() == 0 {
        Seq::empty()
    } else if items.len() == 1 {
        render(items[0])
    } else {
        render(items[0]) + lit_sep() + items_joined(items.skip(1), render)
    }
}

/// A whole array.
pub open spec fn arr_json<A>(items: Seq<A>, render: spec_fn(A) -> Seq<char>) -> Seq<char> {
    if items.len() == 0 {
        lit_arr_empty()
    } else {
        lit_arr_open() + items_joined(items, render) + lit_arr_close()
    }
}

/// The whole document, rendered.
pub open spec fn doc_json(d: PacConfigView) -> Seq<char> {
    lit_doc_open() + arr_json(d.proxy_rules, rule_item_json()) + lit_doc_bypass() + arr_json(
        d.bypass_list,
        bypass_item_json(),
    ) + lit_doc_ext() + arr_json(d.external_pac_functions, ext_item_json()) + lit_doc_close()
}

// ---------------------------------------------------------------------------
// The parser
// ---------------------------------------------------------------------------

/// Whether `p` is a prefix of `s`.
pub open spec fn starts_with(s: Seq<char>, p: Seq<char>) -> bool {
    s.len() >= p.len() && s.take(p.len() as int) == p
}

/// Consumes an exact literal.
pub open spec fn p_lit(s: Seq<char>, lit: Seq<char>) -> Option<Seq<char>> {
    if starts_with(s, lit) {
        Some(s.skip(lit.len() as int))
    } else {
        None
    }
}

/// Reads a string body up to its closing quote, decoding escapes.
pub open spec fn p_str_body(s: Seq<char>) -> Option<(Seq<char>, Seq<char>)>
    decreases s.len(),
{
    if s.len() == 0 {
        None
    } else if s[0] == '"' {
        Some((Seq::empty(), s.skip(1)))
    } else if s[0] == '\\' {
        if s.len() < 2 {
            None
        } else {
            match decode_escape(s[1]) {
                None => None,
                Some(ch) => match p_str_body(s.skip(2)) {
                    None => None,
                    Some((v, r)) => Some((seq![ch] + v, r)),
                },
            }
        }
    } else {
        match p_str_body(s.skip(1)) {
            None => None,
            Some((v, r)) => Some((seq![s[0]] + v, r)),
        }
    }
}

/// Reads a quoted string.
pub open spec fn p_qstr(s: Seq<char>) -> Option<(Seq<char>, Seq<char>)> {
    if s.len() >= 1 && s[0] == '"' {
        p_str_body(s.skip(1))
    } else {
        None
    }
}

/// The number of leading decimal digits.
pub open spec fn digits_len(s: Seq<char>) -> int
    decreases s.len(),
{
    if s.len() > 0 && is_digit(s[0]) {
        1 + digits_len(s.skip(1))
    } else {
        0
    }
}

/// Reads a port number: the leading digits, without a superfluous leading
/// zero, valued at most 65535.
pub open spec fn p_u16(s: Seq<char>) -> Option<(u16, Seq<char>)> {
    let k = digits_len(s);
    if k == 0 {
        None
    } else {
        let ds = s.take(k);
        if (digit_val(ds[0]) == 0 && k > 1) || val_of_digits(ds) > 65535 {
            None
        } else {
            Some((val_of_digits(ds) as u16, s.skip(k)))
        }
    }
}

/// Reads a JSON boolean.
pub open spec fn p_bool(s: Seq<char>) -> Option<(bool, Seq<char>)> {
    if starts_with(s, "true"@) {
        Some((true, s.skip(4)))
    } else if starts_with(s, "false"@) {
        Some((false, s.skip(5)))
    } else {
        None
    }
}

/// Reads one proxy-rule item.
pub open spec fn p_rule_item(s: Seq<char>) -> Option<(ProxyRuleItemView, Seq<char>)> {
    match p_lit(s, lit_rule_a()) {
        None => None,
        Some(s1) => match p_qstr(s1) {
            None => None,
            Some((host, s2)) => match p_lit(s2, lit_rule_b()) {
                None => None,
                Some(s3) => match p_qstr(s3) {
                    None => None,
                    Some((proxy_host, s4)) => match p_lit(s4, lit_rule_c()) {
                        None => None,
                        Some(s5) => match p_u16(s5) {
                            None => None,
                            Some((port, s6)) => match p_lit(s6, lit_rule_d()) {
                                None => None,
                                Some(s7) => match p_bool(s7) {
                                    None => None,
                                    Some((enabled, s8)) => match p_lit(s8, lit_item_close()) {
                                        None => None,
                                        Some(s9) => Some(
                                            (
                                                ProxyRuleItemView {
                                                    rule: ProxyRuleView {
                                                        host,
                                                        proxy_host,
                                                        proxy_port: port,
                                                    },
                                                    enabled,
                                                },
                                                s9,
                                            ),
                                        ),
                                    },
                                },
                            },
                        },
                    },
                },
            },
        },
    }
}

/// Reads one bypass item.
pub open spec fn p_bypass_item(s: Seq<char>) -> Option<(BypassListItemView, Seq<char>)> {
    match p_lit(s, lit_byp_a()) {
        None => None,
        Some(s1) => match p_qstr(s1) {
            None => None,
            Some((host, s2)) => match p_lit(s2, lit_byp_b()) {
                None => None,
                Some(s3) => match p_bool(s3) {
                    None => None,
                    Some((enabled, s4)) => match p_lit(s4, lit_item_close()) {
                        None => None,
                        Some(s5) => Some((BypassListItemView { host, enabled }, s5)),
                    },
                },
            },
        },
    }
}

/// Reads one external-function item.
pub open spec fn p_ext_item(s: Seq<char>) -> Option<(ExternalPacFunctionItemView, Seq<char>)> {
    match p_lit(s, lit_ext_a()) {
        None => None,
        Some(s1) => match p_qstr(s1) {
            None => None,
            Some((original_url, s2)) => match p_lit(s2, lit_ext_b()) {
                None => None,
                Some(s3) => match p_qstr(s3) {
                    None => None,
                    Some((function_name, s4)) => match p_lit(s4, lit_ext_c()) {
                        None => None,
                        Some(s5) => match p_qstr(s5) {
                            None => None,
                            Some((function_text, s6)) => match p_lit(s6, lit_ext_d()) {
                                None => None,
                                Some(s7) => match p_bool(s7) {
                                    None => None,
                                    Some((enabled, s8)) => match p_lit(s8, lit_item_close()) {
                                        None => None,
                                        Some(s9) => Some(
                                            (
                                                ExternalPacFunctionItemView {
                                                    function: ExternalPacFunctionView {
                                                        original_url,
                                                        function_name,
                                                        function_text,
                                                    },
                                                    enabled,
                                                },
                                                s9,
                                            ),
                                        ),
                                    },
                                },
                            },
                        },
                    },
                },
            },
        },
    }
}

/// Reads one or more proxy-rule items separated by `,\n`.
pub open spec fn p_rule_items(s: Seq<char>) -> Option<(Seq<ProxyRuleItemView>, Seq<char>)>
    decreases s.len(),
{
    match p_rule_item(s) {
        None => None,
        Some((it, r)) => if starts_with(r, lit_sep()) {
            if 2 <= r.len() && r.len() < s.len() {
                match p_rule_items(r.skip(2)) {
                    None => None,
                    Some((rest, r2)) => Some((seq![it] + rest, r2)),
                }
            } else {
                None
            }
        } else {
            Some((seq![it], r))
        },
    }
}

/// Reads one or more bypass items separated by `,\n`.
pub open spec fn p_bypass_items(s: Seq<char>) -> Option<(Seq<BypassListItemView>, Seq<char>)>
    decreases s.len(),
{
    match p_bypass_item(s) {
        None => None,
        Some((it, r)) => if starts_with(r, lit_sep()) {
            if 2 <= r.len() && r.len() < s.len() {
                match p_bypass_items(r.skip(2)) {
                    None => None,
                    Some((rest, r2)) => Some((seq![it] + rest, r2)),
                }
            } else {
                None
            }
        } else {
            Some((seq![it], r))
        },
    }
}

/// Reads one or more external-function items separated by `,\n`.
pub open spec fn p_ext_items(s: Seq<char>) -> Option<(Seq<ExternalPacFunctionItemView>, Seq<char>)>
    decreases s.len(),
{
    match p_ext_item(s) {
        None => None,
        Some((it, r)) => if starts_with(r, lit_sep()) {
            if 2 <= r.len() && r.len() < s.len() {
                match p_ext_items(r.skip(2)) {
                    None => None,
                    Some((rest, r2)) => Some((seq![it] + rest, r2)),
                }
            } else {
                None
            }
        } else {
            Some((seq![it], r))
        },
    }
}

/// Reads a proxy-rule array.
pub open spec fn p_rules_arr(s: Seq<char>) -> Option<(Seq<ProxyRuleItemView>, Seq<char>)> {
    if starts_with(s, lit_arr_empty()) {
        Some((Seq::empty(), s.skip(2)))
    } else {
        match p_lit(s, lit_arr_open()) {
            None => None,
            Some(s1) => match p_rule_items(s1) {
                None => None,
                Some((items, r)) => match p_lit(r, lit_arr_close()) {
                    None => None,
                    Some(r2) => Some((items, r2)),
                },
            },
        }
    }
}

/// Reads a bypass array.
pub open spec fn p_bypass_arr(s: Seq<char>) -> Option<(Seq<BypassListItemView>, Seq<char>)> {
    if starts_with(s, lit_arr_empty()) {
        Some((Seq::empty(), s.skip(2)))
    } else {
        match p_lit(s, lit_arr_open()) {
            None => None,
            Some(s1) => match p_bypass_items(s1) {
                None => None,
                Some((items, r)) => match p_lit(r, lit_arr_close()) {
                    None => None,
                    Some(r2) => Some((items, r2)),
                },
            },
        }
    }
}

/// Reads an external-function array.
pub open spec fn p_ext_arr(s: Seq<char>) -> Option<(Seq<ExternalPacFunctionItemView>, Seq<char>)> {
    if starts_with(s, lit_arr_empty()) {
        Some((Seq::empty(), s.skip(2)))
    } else {
        match p_lit(s, lit_arr_open()) {
            None => None,
            Some(s1) => match p_ext_items(s1) {
                None => None,
                Some((items, r)) => match p_lit(r, lit_arr_close()) {
                    None => None,
                    Some(r2) => Some((items, r2)),
                },
            },
        }
    }
}

/// Reads a whole document; the input must be consumed exactly.
pub open spec fn p_doc(s: Seq<char>) -> Option<PacConfigView> {
    match p_lit(s, lit_doc_open()) {
        None => None,
        Some(s1) => match p_rules_arr(s1) {
            None => None,
            Some((rules, s2)) => match p_lit(s2, lit_doc_bypass()) {
                None => None,
                Some(s3) => match p_bypass_arr(s3) {
                    None => None,
                    Some((bypass, s4)) => match p_lit(s4, lit_doc_ext()) {
                        None => None,
                        Some(s5) => match p_ext_arr(s5) {
                            None => None,
                            Some((exts, s6)) => match p_lit(s6, lit_doc_close()) {
                                None => None,
                                Some(s7) => if s7.len() == 0 {
                                    Some(
                                        PacConfigView {
                                            proxy_rules: rules,
                                            bypass_list: bypass,
                                            external_pac_functions: exts,
                                        },
                                    )
                                } else {
                                    None
                                },
                            },
                        },
                    },
                },
            },
        },
    }
}

// ---------------------------------------------------------------------------
// Round trip: parsing what was printed restores the document
// ---------------------------------------------------------------------------

/// A literal parses off the front of what it prefixes.
proof fn lemma_p_lit(lit: Seq<char>, rest: Seq<char>)
    ensures
        p_lit(lit + rest, lit) == Some(rest),
{
    let s = lit + rest;
    assert(s.take(lit.len() as int) =~= lit);
    assert(s.skip(lit.len() as int) =~= rest);
}

/// An escaped string body parses back to the original, up to the closing
/// quote.
proof fn lemma_esc_body(v: Seq<char>, rest: Seq<char>)
    ensures
        p_str_body(esc(v) + seq!['"'] + rest) == Some((v, rest)),
    decreases v.len(),
{
    let s = esc(v) + seq!['"'] + rest;
    if v.len() == 0 {
        assert(esc(v) =~= Seq::<char>::empty());
        assert(s =~= seq!['"'] + rest);
        assert(s[0] == '"');
        assert(s.skip(1) =~= rest);
    } else {
        let c = v[0];
        let tail = esc(v.skip(1)) + seq!['"'] + rest;
        lemma_esc_body(v.skip(1), rest);
        assert(s =~= esc_char(c) + tail);
        if c == '"' || c == '\\' || c == '\n' || c == '\r' || c == '\t' {
            assert(esc_char(c).len() == 2);
            assert(s[0] == '\\');
            assert(s.len() >= 2);
            assert(s[1] == esc_char(c)[1]);
            assert(decode_escape(s[1]) == Some(c));
            assert(s.skip(2) =~= tail);
            assert(p_str_body(s) == Some((seq![c] + v.skip(1), rest)));
            assert(seq![c] + v.skip(1) =~= v);
        } else {
            assert(esc_char(c) =~= seq![c]);
            assert(s[0] == c);
            assert(s.skip(1) =~= tail);
            assert(p_str_body(s) == Some((seq![c] + v.skip(1), rest)));
            assert(seq![c] + v.skip(1) =~= v);
        }
    }
}

/// A quoted string parses back to the original.
proof fn lemma_p_qstr(v: Seq<char>, rest: Seq<char>)
    ensures
        p_qstr(q(v) + rest) == Some((v, rest)),
{
    let s = q(v) + rest;
    assert(s[0] == '"');
    assert(s.len() >= 1);
    lemma_esc_body(v, rest);
    assert(s.skip(1) =~= esc(v) + seq!['"'] + rest);
}

/// A run of digits followed by a non-digit has exactly that many leading
/// digits.
proof fn lemma_digits_len(ds: Seq<char>, rest: Seq<char>)
    requires
        forall|i: int| 0 <= i < ds.len() ==> is_digit(#[trigger] ds[i]),
        rest.len() >= 1,
        !is_digit(rest[0]),
    ensures
        digits_len(ds + rest) == ds.len(),
    decreases ds.len(),
{
    let s = ds + rest;
    if ds.len() == 0 {
        assert(s =~= rest);
    } else {
        assert(s[0] == ds[0]);
        assert(s.skip(1) =~= ds.skip(1) + rest);
        lemma_digits_len(ds.skip(1), rest);
    }
}

/// A rendered port parses back to the same number.
proof fn lemma_p_u16(n: u16, rest: Seq<char>)
    requires
        rest.len() >= 1,
        !is_digit(rest[0]),
    ensures
        p_u16(dec_digits(n as nat) + rest) == Some((n, rest)),
{
    let ds = dec_digits(n as nat);
    let s = ds + rest;
    lemma_dec_digits(n as nat);
    lemma_digits_len(ds, rest);
    assert(s.take(ds.len() as int) =~= ds);
    assert(s.skip(ds.len() as int) =~= rest);
}

/// A rendered boolean parses back to the same value.
proof fn lemma_p_bool(b: bool, rest: Seq<char>)
    ensures
        p_bool(bool_json(b) + rest) == Some((b, rest)),
{
    reveal_strlit("true");
    reveal_strlit("false");
    let s = bool_json(b) + rest;
    if b {
        assert(s.take(4) =~= "true"@);
        assert(s.skip(4) =~= rest);
    } else {
        assert(s[0] == 'f');
        if starts_with(s, "true"@) {
            assert(s.take(4)[0] == 't');
            assert(false);
        }
        assert(s.take(5) =~= "false"@);
        assert(s.skip(5) =~= rest);
    }
}

/// The lengths and first characters of the fixed layout pieces.
proof fn lemma_layout_chars()
    ensures
        lit_rule_a().len() >= 1,
        lit_byp_a().len() >= 1,
        lit_ext_a().len() >= 1,
        lit_rule_d()[0] == '\n',
        lit_rule_d().len() >= 1,
        lit_sep().len() == 2,
        lit_sep()[0] == ',',
        lit_arr_close()[0] == '\n',
        lit_arr_close().len() >= 1,
        lit_arr_empty().len() == 2,
        lit_arr_empty()[1] == ']',
        lit_arr_open().len() == 2,
        lit_arr_open()[1] == '\n',
        lit_arr_open()[0] == '[',
        lit_arr_empty()[0] == '[',
        !is_digit('\n'),
{
    reveal_strlit("    {\n      \"rule\": {\n        \"host\": ");
    reveal_strlit("    {\n      \"host\": ");
    reveal_strlit("    {\n      \"function\": {\n        \"original_url\": ");
    reveal_strlit("\n      },\n      \"enabled\": ");
    reveal_strlit(",\n");
    reveal_strlit("\n  ]");
    reveal_strlit("[]");
    reveal_strlit("[\n");
}

/// A rendered proxy-rule item parses back to the same item.
proof fn lemma_p_rule_item(it: ProxyRuleItemView, rest: Seq<char>)
    ensures
        p_rule_item(rule_item_json()(it) + rest) == Some((it, rest)),
{
    lemma_layout_chars();
    let t8 = lit_item_close() + rest;
    let t7 = bool_json(it.enabled) + t8;
    let t6 = lit_rule_d() + t7;
    let t5 = dec_digits(it.rule.proxy_port as nat) + t6;
    let t4 = lit_rule_c() + t5;
    let t3 = q(it.rule.proxy_host) + t4;
    let t2 = lit_rule_b() + t3;
    let t1 = q(it.rule.host) + t2;
    let s = lit_rule_a() + t1;
    assert(rule_item_json()(it) + rest =~= s);
    lemma_p_lit(lit_rule_a(), t1);
    lemma_p_qstr(it.rule.host, t2);
    lemma_p_lit(lit_rule_b(), t3);
    lemma_p_qstr(it.rule.proxy_host, t4);
    lemma_p_lit(lit_rule_c(), t5);
    assert(t6[0] == '\n');
    lemma_p_u16(it.rule.proxy_port, t6);
    lemma_p_lit(lit_rule_d(), t7);
    lemma_p_bool(it.enabled, t8);
    lemma_p_lit(lit_item_close(), rest);
}

/// A rendered bypass item parses back to the same item.
proof fn lemma_p_bypass_item(it: BypassListItemView, rest: Seq<char>)
    ensures
        p_bypass_item(bypass_item_json()(it) + rest) == Some((it, rest)),
{
    lemma_layout_chars();
    let t4 = lit_item_close() + rest;
    let t3 = bool_json(it.enabled) + t4;
    let t2 = lit_byp_b() + t3;
    let t1 = q(it.host) + t2;
    let s = lit_byp_a() + t1;
    assert(bypass_item_json()(it) + rest =~= s);
    lemma_p_lit(lit_byp_a(), t1);
    lemma_p_qstr(it.host, t2);
    lemma_p_lit(lit_byp_b(), t3);
    lemma_p_bool(it.enabled, t4);
    lemma_p_lit(lit_item_close(), rest);
}

/// A rendered external-function item parses back to the same item.
proof fn lemma_p_ext_item(it: ExternalPacFunctionItemView, rest: Seq<char>)
    ensures
        p_ext_item(ext_item_json()(it) + rest) == Some((it, rest)),
{
    lemma_layout_chars();
    let t8 = lit_item_close() + rest;
    let t7 = bool_json(it.enabled) + t8;
    let t6 = lit_ext_d() + t7;
    let t5 = q(it.function.function_text) + t6;
    let t4 = lit_ext_c() + t5;
    let t3 = q(it.function.function_name) + t4;
    let t2 = lit_ext_b() + t3;
    let t1 = q(it.function.original_url) + t2;
    let s = lit_ext_a() + t1;
    assert(ext_item_json()(it) + rest =~= s);
    lemma_p_lit(lit_ext_a(), t1);
    lemma_p_qstr(it.function.original_url, t2);
    lemma_p_lit(lit_ext_b(), t3);
    lemma_p_qstr(it.function.function_name, t4);
    lemma_p_lit(lit_ext_c(), t5);
    lemma_p_qstr(it.function.function_text, t6);
    lemma_p_lit(lit_ext_d(), t7);
    lemma_p_bool(it.enabled, t8);
    lemma_p_lit(lit_item_close(), rest);
}

/// A rendered run of proxy-rule items parses back to the same items.
proof fn lemma_p_rule_items(items: Seq<ProxyRuleItemView>, tail: Seq<char>)
    requires
        items.len() >= 1,
        tail.len() >= 1,
        tail[0] != ',',
    ensures
        p_rule_items(items_joined(items, rule_item_json()) + tail) == Some((items, tail)),
    decreases items.len(),
{
    lemma_layout_chars();
    let s = items_joined(items, rule_item_json()) + tail;
    if items.len() == 1 {
        lemma_p_rule_item(items[0], tail);
        assert(p_rule_item(s) == Some((items[0], tail)));
        if starts_with(tail, lit_sep()) {
            assert(tail.take(2)[0] == ',');
            assert(false);
        }
        assert(seq![items[0]] =~= items);
    } else {
        let t2 = items_joined(items.skip(1), rule_item_json()) + tail;
        let t1 = lit_sep() + t2;
        assert(s =~= rule_item_json()(items[0]) + t1);
        lemma_p_rule_item(items[0], t1);
        assert(p_rule_item(s) == Some((items[0], t1)));
        assert(starts_with(t1, lit_sep())) by {
            assert(t1.take(2) =~= lit_sep());
        }
        assert(rule_item_json()(items[0]).len() >= 1);
        assert(t1.len() < s.len());
        assert(t1.skip(2) =~= t2);
        lemma_p_rule_items(items.skip(1), tail);
        assert(seq![items[0]] + items.skip(1) =~= items);
    }
}

/// A rendered run of bypass items parses back to the same items.
proof fn lemma_p_bypass_items(items: Seq<BypassListItemView>, tail: Seq<char>)
    requires
        items.len() >= 1,
        tail.len() >= 1,
        tail[0] != ',',
    ensures
        p_bypass_items(items_joined(items, bypass_item_json()) + tail) == Some((items, tail)),
    decreases items.len(),
{
    lemma_layout_chars();
    let s = items_joined(items, bypass_item_json()) + tail;
    if items.len() == 1 {
        lemma_p_bypass_item(items[0], tail);
        assert(p_bypass_item(s) == Some((items[0], tail)));
        if starts_with(tail, lit_sep()) {
            assert(tail.take(2)[0] == ',');
            assert(false);
        }
        assert(seq![items[0]] =~= items);
    } else {
        let t2 = items_joined(items.skip(1), bypass_item_json()) + tail;
        let t1 = lit_sep() + t2;
        assert(s =~= bypass_item_json()(items[0]) + t1);
        lemma_p_bypass_item(items[0], t1);
        assert(p_bypass_item(s) == Some((items[0], t1)));
        assert(starts_with(t1, lit_sep())) by {
            assert(t1.take(2) =~= lit_sep());
        }
        assert(bypass_item_json()(items[0]).len() >= 1);
        assert(t1.len() < s.len());
        assert(t1.skip(2) =~= t2);
        lemma_p_bypass_items(items.skip(1), tail);
        assert(seq![items[0]] + items.skip(1) =~= items);
    }
}

/// A rendered run of external-function items parses back to the same items.
proof fn lemma_p_ext_items(items: Seq<ExternalPacFunctionItemView>, tail: Seq<char>)
    requires
        items.len() >= 1,
        tail.len() >= 1,
        tail[0] != ',',
    ensures
        p_ext_items(items_joined(items, ext_item_json()) + tail) == Some((items, tail)),
    decreases items.len(),
{
    lemma_layout_chars();
    let s = items_joined(items, ext_item_json()) + tail;
    if items.len() == 1 {
        lemma_p_ext_item(items[0], tail);
        assert(p_ext_item(s) == Some((items[0], tail)));
        if starts_with(tail, lit_sep()) {
            assert(tail.take(2)[0] == ',');
            assert(false);
        }
        assert(seq![items[0]] =~= items);
    } else {
        let t2 = items_joined(items.skip(1), ext_item_json()) + tail;
        let t1 = lit_sep() + t2;
        assert(s =~= ext_item_json()(items[0]) + t1);
        lemma_p_ext_item(items[0], t1);
        assert(p_ext_item(s) == Some((items[0], t1)));
        assert(starts_with(t1, lit_sep())) by {
            assert(t1.take(2) =~= lit_sep());
        }
        assert(ext_item_json()(items[0]).len() >= 1);
        assert(t1.len() < s.len());
        assert(t1.skip(2) =~= t2);
        lemma_p_ext_items(items.skip(1), tail);
        assert(seq![items[0]] + items.skip(1) =~= items);
    }
}

/// A rendered proxy-rule array parses back to the same items.
proof fn lemma_p_rules_arr(items: Seq<ProxyRuleItemView>, rest: Seq<char>)
    ensures
        p_rules_arr(arr_json(items, rule_item_json()) + rest) == Some((items, rest)),
{
    lemma_layout_chars();
    let s = arr_json(items, rule_item_json()) + rest;
    if items.len() == 0 {
        assert(s.take(2) =~= lit_arr_empty());
        assert(s.skip(2) =~= rest);
        assert(items =~= Seq::<ProxyRuleItemView>::empty());
    } else {
        let tail = lit_arr_close() + rest;
        let t1 = items_joined(items, rule_item_json()) + tail;
        assert(s =~= lit_arr_open() + t1);
        if starts_with(s, lit_arr_empty()) {
            assert(s.take(2)[1] == ']');
            assert(s[1] == '\n');
            assert(false);
        }
        lemma_p_lit(lit_arr_open(), t1);
        assert(tail[0] == '\n');
        lemma_p_rule_items(items, tail);
        lemma_p_lit(lit_arr_close(), rest);
    }
}

/// A rendered bypass array parses back to the same items.
proof fn lemma_p_bypass_arr(items: Seq<BypassListItemView>, rest: Seq<char>)
    ensures
        p_bypass_arr(arr_json(items, bypass_item_json()) + rest) == Some((items, rest)),
{
    lemma_layout_chars();
    let s = arr_json(items, bypass_item_json()) + rest;
    if items.len() == 0 {
        assert(s.take(2) =~= lit_arr_empty());
        assert(s.skip(2) =~= rest);
        assert(items =~= Seq::<BypassListItemView>::empty());
    } else {
        let tail = lit_arr_close() + rest;
        let t1 = items_joined(items, bypass_item_json()) + tail;
        assert(s =~= lit_arr_open() + t1);
        if starts_with(s, lit_arr_empty()) {
            assert(s.take(2)[1] == ']');
            assert(s[1] == '\n');
            assert(false);
        }
        lemma_p_lit(lit_arr_open(), t1);
        assert(tail[0] == '\n');
        lemma_p_bypass_items(items, tail);
        lemma_p_lit(lit_arr_close(), rest);
    }
}

/// A rendered external-function array parses back to the same items.
proof fn lemma_p_ext_arr(items: Seq<ExternalPacFunctionItemView>, rest: Seq<char>)
    ensures
        p_ext_arr(arr_json(items, ext_item_json()) + rest) == Some((items, rest)),
{
    lemma_layout_chars();
    let s = arr_json(items, ext_item_json()) + rest;
    if items.len() == 0 {
        assert(s.take(2) =~= lit_arr_empty());
        assert(s.skip(2) =~= rest);
        assert(items =~= Seq::<ExternalPacFunctionItemView>::empty());
    } else {
        let tail = lit_arr_close() + rest;
        let t1 = items_joined(items, ext_item_json()) + tail;
        assert(s =~= lit_arr_open() + t1);
        if starts_with(s, lit_arr_empty()) {
            assert(s.take(2)[1] == ']');
            assert(s[1] == '\n');
            assert(false);
        }
        lemma_p_lit(lit_arr_open(), t1);
        assert(tail[0] == '\n');
        lemma_p_ext_items(items, tail);
        lemma_p_lit(lit_arr_close(), rest);
    }
}

/// The persisted document round-trips: parsing what was printed restores the
/// document exactly.
#[verifier::rlimit(100)]
#[verifier::spinoff_prover]
pub proof fn lemma_doc_round_trip(d: PacConfigView)
    ensures
        p_doc(doc_json(d)) == Some(d),
{
    let t6 = lit_doc_close() + Seq::<char>::empty();
    let t5 = arr_json(d.external_pac_functions, ext_item_json()) + t6;
    let t4 = lit_doc_ext() + t5;
    let t3 = arr_json(d.bypass_list, bypass_item_json()) + t4;
    let t2 = lit_doc_bypass() + t3;
    let t1 = arr_json(d.proxy_rules, rule_item_json()) + t2;
    let s = lit_doc_open() + t1;
    assert(doc_json(d) =~= s);
    lemma_p_lit(lit_doc_open(), t1);
    lemma_p_rules_arr(d.proxy_rules, t2);
    lemma_p_lit(lit_doc_bypass(), t3);
    lemma_p_bypass_arr(d.bypass_list, t4);
    lemma_p_lit(lit_doc_ext(), t5);
    lemma_p_ext_arr(d.external_pac_functions, t6);
    lemma_p_lit(lit_doc_close(), Seq::<char>::empty());
    assert(p_doc(s) == Some(PacConfigView {
        proxy_rules: d.proxy_rules,
        bypass_list: d.bypass_list,
        external_pac_functions: d.external_pac_functions,
    }));
    assert(PacConfigView {
        proxy_rules: d.proxy_rules,
        bypass_list: d.bypass_list,
        external_pac_functions: d.external_pac_functions,
    } =~~= d);
}

// ---------------------------------------------------------------------------
// The executable printer
// ---------------------------------------------------------------------------

/// Appends a quoted, escaped JSON string literal to `buf`.
fn push_qstr(buf: &mut Vec<char>, s: &str)
    ensures
        final(buf)@ == old(buf)@ + q(s@),
{
    let cs = chars_of(s);
    buf.push('"');
    let ghost mut built: Seq<char> = Seq::empty();
    let mut i: usize = 0;
    proof {
        assert(cs@.skip(0) =~= cs@);
        assert(buf@ =~= old(buf)@ + seq!['"'] + built);
    }
    while i < cs.len()
        invariant
            i <= cs@.len(),
            cs@ == s@,
            esc(s@) == built + esc(s@.skip(i as int)),
            buf@ == old(buf)@ + seq!['"'] + built,
        decreases cs@.len() - i,
    {
        let c = cs[i];
        proof {
            assert(s@.skip(i as int)[0] == s@[i as int]);
            assert(s@.skip(i as int).skip(1) =~= s@.skip(i as int + 1));
        }
        if c == '"' {
            buf.push('\\');
            buf.push('"');
        } else if c == '\\' {
            buf.push('\\');
            buf.push('\\');
        } else if c == '\n' {
            buf.push('\\');
            buf.push('n');
        } else if c == '\r' {
            buf.push('\\');
            buf.push('r');
        } else if c == '\t' {
            buf.push('\\');
            buf.push('t');
        } else {
            buf.push(c);
        }
        proof {
            built = built + esc_char(c);
            assert(esc(s@) == built + esc(s@.skip(i as int + 1))) by {
                assert(esc(s@.skip(i as int)) == esc_char(c) + esc(s@.skip(i as int + 1)));
                assert((built.subrange(0, built.len() - esc_char(c).len() as int)) + (esc_char(c)
                    + esc(s@.skip(i as int + 1))) =~= built + esc(s@.skip(i as int + 1)));
            }
            assert(buf@ =~= old(buf)@ + seq!['"'] + built);
        }
        i = i + 1;
    }
    proof {
        assert(s@.skip(s@.len() as int) =~= Seq::<char>::empty());
        assert(esc(s@) == built);
    }
    buf.push('"');
    proof {
        assert(buf@ =~= old(buf)@ + q(s@));
    }
}

/// Appends a JSON boolean to `buf`.
fn push_bool(buf: &mut Vec<char>, b: bool)
    ensures
        final(buf)@ == old(buf)@ + bool_json(b),
{
    if b {
        push_str_chars(buf, "true");
    } else {
        push_str_chars(buf, "false");
    }
}

/// Appending one more item extends the join by a separator and the item.
proof fn lemma_items_joined_push<A>(items: Seq<A>, render: spec_fn(A) -> Seq<char>, x: A)
    ensures
        items_joined(items.push(x), render) == if items.len() == 0 {
            render(x)
        } else {
            items_joined(items, render) + lit_sep() + render(x)
        },
    decreases items.len(),
{
    let p = items.push(x);
    if items.len() == 0 {
        assert(p.len() == 1);
        assert(p[0] == x);
    } else {
        assert(p[0] == items[0]);
        assert(p.skip(1) =~= items.skip(1).push(x));
        lemma_items_joined_push(items.skip(1), render, x);
        if items.len() == 1 {
            assert(items.skip(1) =~= Seq::<A>::empty());
        } else {
            assert(render(items[0]) + lit_sep() + (items_joined(items.skip(1), render) + lit_sep()
                + render(x)) =~= (render(items[0]) + lit_sep() + items_joined(
                items.skip(1),
                render,
            )) + lit_sep() + render(x));
        }
    }
}

impl PacConfig {
    /// Appends the proxy-rules array to `buf`.
    #[verifier::rlimit(50)]
    fn push_rules_json(&self, buf: &mut Vec<char>)
        ensures
            final(buf)@ == old(buf)@ + arr_json(self@.proxy_rules, rule_item_json()),
    {
        let ghost rs = self@.proxy_rules;
        let n = self.proxy_rules.len();
        if n == 0 {
            push_str_chars(buf, "[]");
            return;
        }
        push_str_chars(buf, "[\n");
        let mut i: usize = 0;
        while i < n
            invariant
                n == rs.len(),
                rs == self@.proxy_rules,
                n >= 1,
                i <= n,
                buf@ == old(buf)@ + lit_arr_open() + items_joined(rs.take(i as int), rule_item_json()),
            decreases n - i,
        {
            proof {
                assert(rs.take(i as int + 1) =~= rs.take(i as int).push(rs[i as int]));
                assert(rs[i as int] == self.proxy_rules@[i as int]@);
                lemma_items_joined_push(rs.take(i as int), rule_item_json(), rs[i as int]);
            }
            if i > 0 {
                push_str_chars(buf, ",\n");
            } else {
                proof {
                    assert(rs.take(0) =~= Seq::<ProxyRuleItemView>::empty());
                    assert(items_joined(rs.take(0), rule_item_json()) =~= Seq::<char>::empty());
                }
            }
            let item = &self.proxy_rules[i];
            push_str_chars(buf, "    {\n      \"rule\": {\n        \"host\": ");
            push_qstr(buf, item.rule.host.as_str());
            push_str_chars(buf, ",\n        \"proxy_host\": ");
            push_qstr(buf, item.rule.proxy_host.as_str());
            push_str_chars(buf, ",\n        \"proxy_port\": ");
            push_u16(buf, item.rule.proxy_port);
            push_str_chars(buf, "\n      },\n      \"enabled\": ");
            push_bool(buf, item.enabled);
            push_str_chars(buf, "\n    }");
            proof {
                assert(rule_item_json()(rs[i as int]) == lit_rule_a() + q(rs[i as int].rule.host)
                    + lit_rule_b() + q(rs[i as int].rule.proxy_host) + lit_rule_c() + dec_digits(
                    rs[i as int].rule.proxy_port as nat,
                ) + lit_rule_d() + bool_json(rs[i as int].enabled) + lit_item_close());
                assert(buf@ =~= old(buf)@ + lit_arr_open() + items_joined(
                    rs.take(i as int + 1),
                    rule_item_json(),
                ));
            }
            i = i + 1;
        }
        proof {
            assert(rs.take(n as int) =~= rs);
        }
        push_str_chars(buf, "\n  ]");
        proof {
            assert(buf@ =~= old(buf)@ + arr_json(rs, rule_item_json()));
        }
    }

    /// Appends the bypass array to `buf`.
    fn push_bypass_json(&self, buf: &mut Vec<char>)
        ensures
            final(buf)@ == old(buf)@ + arr_json(self@.bypass_list, bypass_item_json()),
    {
        let ghost bs = self@.bypass_list;
        let n = self.bypass_list.len();
        if n == 0 {
            push_str_chars(buf, "[]");
            return;
        }
        push_str_chars(buf, "[\n");
        let mut i: usize = 0;
        while i < n
            invariant
                n == bs.len(),
                bs == self@.bypass_list,
                n >= 1,
                i <= n,
                buf@ == old(buf)@ + lit_arr_open() + items_joined(
                    bs.take(i as int),
                    bypass_item_json(),
                ),
            decreases n - i,
        {
            proof {
                assert(bs.take(i as int + 1) =~= bs.take(i as int).push(bs[i as int]));
                assert(bs[i as int] == self.bypass_list@[i as int]@);
                lemma_items_joined_push(bs.take(i as int), bypass_item_json(), bs[i as int]);
            }
            if i > 0 {
                push_str_chars(buf, ",\n");
            } else {
                proof {
                    assert(bs.take(0) =~= Seq::<BypassListItemView>::empty());
                    assert(items_joined(bs.take(0), bypass_item_json()) =~= Seq::<char>::empty());
                }
            }
            let item = &self.bypass_list[i];
            push_str_chars(buf, "    {\n      \"host\": ");
            push_qstr(buf, item.host.as_str());
            push_str_chars(buf, ",\n      \"enabled\": ");
            push_bool(buf, item.enabled);
            push_str_chars(buf, "\n    }");
            proof {
                assert(bypass_item_json()(bs[i as int]) == lit_byp_a() + q(bs[i as int].host)
                    + lit_byp_b() + bool_json(bs[i as int].enabled) + lit_item_close());
                assert(buf@ =~= old(buf)@ + lit_arr_open() + items_joined(
                    bs.take(i as int + 1),
                    bypass_item_json(),
                ));
            }
            i = i + 1;
        }
        proof {
            assert(bs.take(n as int) =~= bs);
        }
        push_str_chars(buf, "\n  ]");
        proof {
            assert(buf@ =~= old(buf)@ + arr_json(bs, bypass_item_json()));
        }
    }

    /// Appends the external-functions array to `buf`.
    #[verifier::rlimit(50)]
    fn push_ext_json(&self, buf: &mut Vec<char>)
        ensures
            final(buf)@ == old(buf)@ + arr_json(self@.external_pac_functions, ext_item_json()),
    {
        let ghost es = self@.external_pac_functions;
        let n = self.external_pac_functions.len();
        if n == 0 {
            push_str_chars(buf, "[]");
            return;
        }
        push_str_chars(buf, "[\n");
        let mut i: usize = 0;
        while i < n
            invariant
                n == es.len(),
                es == self@.external_pac_functions,
                n >= 1,
                i <= n,
                buf@ == old(buf)@ + lit_arr_open() + items_joined(es.take(i as int), ext_item_json()),
            decreases n - i,
        {
            proof {
                assert(es.take(i as int + 1) =~= es.take(i as int).push(es[i as int]));
                assert(es[i as int] == self.external_pac_functions@[i as int]@);
                lemma_items_joined_push(es.take(i as int), ext_item_json(), es[i as int]);
            }
            if i > 0 {
                push_str_chars(buf, ",\n");
            } else {
                proof {
                    assert(es.take(0) =~= Seq::<ExternalPacFunctionItemView>::empty());
                    assert(items_joined(es.take(0), ext_item_json()) =~= Seq::<char>::empty());
                }
            }
            let item = &self.external_pac_functions[i];
            push_str_chars(buf, "    {\n      \"function\": {\n        \"original_url\": ");
            push_qstr(buf, item.function.original_url.as_str());
            push_str_chars(buf, ",\n        \"function_name\": ");
            push_qstr(buf, item.function.function_name.as_str());
            push_str_chars(buf, ",\n        \"function_text\": ");
            push_qstr(buf, item.function.function_text.as_str());
            push_str_chars(buf, "\n      },\n      \"enabled\": ");
            push_bool(buf, item.enabled);
            push_str_chars(buf, "\n    }");
            proof {
                assert(ext_item_json()(es[i as int]) == lit_ext_a() + q(
                    es[i as int].function.original_url,
                ) + lit_ext_b() + q(es[i as int].function.function_name) + lit_ext_c() + q(
                    es[i as int].function.function_text,
                ) + lit_ext_d() + bool_json(es[i as int].enabled) + lit_item_close());
                assert(buf@ =~= old(buf)@ + lit_arr_open() + items_joined(
                    es.take(i as int + 1),
                    ext_item_json(),
                ));
            }
            i = i + 1;
        }
        proof {
            assert(es.take(n as int) =~= es);
        }
        push_str_chars(buf, "\n  ]");
        proof {
            assert(buf@ =~= old(buf)@ + arr_json(es, ext_item_json()));
        }
    }

    /// Renders the document as the pretty-printed JSON that is persisted to
    /// disk.
    pub fn to_json(&self) -> (r: String)
        ensures
            r@ == doc_json(self@),
    {
        let mut buf: Vec<char> = Vec::new();
        push_str_chars(&mut buf, "{\n  \"proxy_rules\": ");
        self.push_rules_json(&mut buf);
        push_str_chars(&mut buf, ",\n  \"bypass_list\": ");
        self.push_bypass_json(&mut buf);
        push_str_chars(&mut buf, ",\n  \"external_pac_functions\": ");
        self.push_ext_json(&mut buf);
        push_str_chars(&mut buf, "\n}");
        proof {
            assert(buf@ =~= doc_json(self@));
        }
        string_from_chars(&buf)
    }
}

// ---------------------------------------------------------------------------
// The executable parser
// ---------------------------------------------------------------------------

/// Consumes the exact literal `lit` at `pos`.
fn expect_lit(buf: &Vec<char>, pos: usize, lit: &str) -> (r: Option<usize>)
    requires
        pos <= buf@.len(),
    ensures
        match r {
            Some(p) => pos <= p <= buf@.len() && p == pos + lit@.len() && p_lit(
                buf@.skip(pos as int),
                lit@,
            ) == Some(buf@.skip(p as int)),
            None => p_lit(buf@.skip(pos as int), lit@) is None,
        },
{
    let lv = chars_of(lit);
    let n = buf.len();
    let m = lv.len();
    let ghost s = buf@.skip(pos as int);
    if n - pos < m {
        proof {
            assert(s.len() < lit@.len());
        }
        return None;
    }
    let mut j: usize = 0;
    while j < m
        invariant
            j <= m,
            m == lit@.len(),
            lv@ == lit@,
            n == buf@.len(),
            pos + m <= n,
            s == buf@.skip(pos as int),
            forall|k: int| 0 <= k < j ==> s[k] == lit@[k],
        decreases m - j,
    {
        proof {
            assert(s[j as int] == buf@[pos + j]);
        }
        if buf[pos + j] != lv[j] {
            proof {
                if starts_with(s, lit@) {
                    assert(s.take(m as int)[j as int] == lit@[j as int]);
                    assert(false);
                }
            }
            return None;
        }
        j = j + 1;
    }
    proof {
        assert(s.take(m as int) =~= lit@);
        assert(s.skip(m as int) =~= buf@.skip(pos + m));
    }
    Some(pos + m)
}

/// Reads a quoted string at `pos`, decoding escapes.
fn parse_qstr(buf: &Vec<char>, pos: usize) -> (r: Option<(String, usize)>)
    requires
        pos <= buf@.len(),
    ensures
        match r {
            Some((v, p)) => pos < p <= buf@.len() && p_qstr(buf@.skip(pos as int)) == Some(
                (v@, buf@.skip(p as int)),
            ),
            None => p_qstr(buf@.skip(pos as int)) is None,
        },
{
    let n = buf.len();
    if pos >= n || buf[pos] != '"' {
        proof {
            if pos < n {
                assert(buf@.skip(pos as int)[0] == buf@[pos as int]);
            }
        }
        return None;
    }
    proof {
        assert(buf@.skip(pos as int)[0] == buf@[pos as int]);
        assert(buf@.skip(pos as int).skip(1) =~= buf@.skip(pos as int + 1));
    }
    let mut out: Vec<char> = Vec::new();
    let mut i: usize = pos + 1;
    loop
        invariant
            pos + 1 <= i <= n,
            n == buf@.len(),
            pos < n,
            buf@[pos as int] == '"',
            p_qstr(buf@.skip(pos as int)) == p_str_body(buf@.skip(pos as int + 1)),
            match p_str_body(buf@.skip(i as int)) {
                Some((v, r)) => p_str_body(buf@.skip(pos as int + 1)) == Some((out@ + v, r)),
                None => p_str_body(buf@.skip(pos as int + 1)) is None,
            },
        decreases n - i,
    {
        if i >= n {
            proof {
                assert(buf@.skip(i as int).len() == 0);
            }
            return None;
        }
        let c = buf[i];
        proof {
            assert(buf@.skip(i as int)[0] == buf@[i as int]);
            assert(buf@.skip(i as int).skip(1) =~= buf@.skip(i as int + 1));
        }
        if c == '"' {
            proof {
                assert(p_str_body(buf@.skip(i as int)) == Some(
                    (Seq::<char>::empty(), buf@.skip(i as int + 1)),
                ));
                assert(out@ + Seq::<char>::empty() =~= out@);
            }
            let v = string_from_chars(&out);
            return Some((v, i + 1));
        } else if c == '\\' {
            if i + 1 >= n {
                proof {
                    assert(buf@.skip(i as int).len() < 2);
                }
                return None;
            }
            let d = buf[i + 1];
            proof {
                assert(buf@.skip(i as int)[1] == buf@[i as int + 1]);
                assert(buf@.skip(i as int).skip(2) =~= buf@.skip(i as int + 2));
            }
            if !(d == '"' || d == '\\' || d == 'n' || d == 'r' || d == 't') {
                proof {
                    assert(decode_escape(d) is None);
                }
                return None;
            }
            let decoded: char = if d == '"' {
                '"'
            } else if d == '\\' {
                '\\'
            } else if d == 'n' {
                '\n'
            } else if d == 'r' {
                '\r'
            } else {
                '\t'
            };
            proof {
                assert(decode_escape(d) == Some(decoded));
            }
            let ghost out0 = out@;
            out.push(decoded);
            proof {
                match p_str_body(buf@.skip(i as int + 2)) {
                    Some((v, r)) => {
                        assert(p_str_body(buf@.skip(i as int)) == Some((seq![decoded] + v, r)));
                        assert(out0 + (seq![decoded] + v) =~= out@ + v);
                    },
                    None => {},
                }
            }
            i = i + 2;
        } else {
            let ghost out0 = out@;
            out.push(c);
            proof {
                match p_str_body(buf@.skip(i as int + 1)) {
                    Some((v, r)) => {
                        assert(p_str_body(buf@.skip(i as int)) == Some((seq![c] + v, r)));
                        assert(out0 + (seq![c] + v) =~= out@ + v);
                    },
                    None => {},
                }
            }
            i = i + 1;
        }
    }
}

/// A run of `k` digits followed by a non-digit (or the end) has exactly `k`
/// leading digits.
proof fn lemma_digits_len_exact(s: Seq<char>, k: int)
    requires
        0 <= k <= s.len(),
        forall|m: int| 0 <= m < k ==> is_digit(#[trigger] s[m]),
        k == s.len() || !is_digit(s[k]),
    ensures
        digits_len(s) == k,
    decreases k,
{
    if k == 0 {
    } else {
        assert(forall|m: int| 0 <= m < k - 1 ==> #[trigger] s.skip(1)[m] == s[m + 1]);
        if k < s.len() {
            assert(s.skip(1)[k - 1] == s[k]);
        }
        lemma_digits_len_exact(s.skip(1), k - 1);
    }
}

/// Reads a port number at `pos`.
fn parse_u16(buf: &Vec<char>, pos: usize) -> (r: Option<(u16, usize)>)
    requires
        pos <= buf@.len(),
    ensures
        match r {
            Some((v, p)) => pos < p <= buf@.len() && p_u16(buf@.skip(pos as int)) == Some(
                (v, buf@.skip(p as int)),
            ),
            None => p_u16(buf@.skip(pos as int)) is None,
        },
{
    let n = buf.len();
    let ghost s = buf@.skip(pos as int);
    let mut j: usize = pos;
    loop
        invariant
            pos <= j <= n,
            n == buf@.len(),
            s == buf@.skip(pos as int),
            forall|m: int| 0 <= m < j - pos ==> is_digit(#[trigger] s[m]),
        ensures
            pos <= j <= n,
            j == n || !is_digit(s[j - pos]),
            forall|m: int| 0 <= m < j - pos ==> is_digit(#[trigger] s[m]),
        decreases n - j,
    {
        if j >= n {
            break;
        }
        let code = buf[j] as u32;
        proof {
            assert(s[j - pos] == buf@[j as int]);
        }
        if !(48 <= code && code <= 57) {
            break;
        }
        j = j + 1;
    }
    proof {
        lemma_digits_len_exact(s, j - pos);
    }
    let k = j - pos;
    if k == 0 {
        return None;
    }
    let ghost ds = s.take(k as int);
    proof {
        assert(forall|m: int| 0 <= m < k ==> #[trigger] ds[m] == s[m]);
    }
    if buf[pos] as u32 == 48 && k > 1 {
        proof {
            assert(ds[0] == buf@[pos as int]);
            assert(digit_val(ds[0]) == 0);
        }
        return None;
    }
    let mut val: u32 = 0;
    let mut i: usize = 0;
    while i < k
        invariant
            i <= k,
            k == digits_len(s),
            k <= s.len(),
            pos + k <= n,
            n == buf@.len(),
            s == buf@.skip(pos as int),
            ds == s.take(k as int),
            forall|m: int| 0 <= m < k ==> is_digit(#[trigger] ds[m]),
            val == val_of_digits(ds.take(i as int)),
            val <= 65535,
        decreases k - i,
    {
        let c = buf[pos + i];
        proof {
            assert(ds[i as int] == s[i as int]);
            assert(s[i as int] == buf@[pos + i]);
            assert(ds.take(i as int + 1).drop_last() =~= ds.take(i as int));
            assert(ds.take(i as int + 1).last() == ds[i as int]);
        }
        val = val * 10 + (c as u32 - 48);
        i = i + 1;
        if val > 65535 {
            proof {
                lemma_val_prefix(ds, i as int);
            }
            return None;
        }
    }
    proof {
        assert(ds.take(k as int) =~= ds);
        assert(s.skip(k as int) =~= buf@.skip(pos + k));
    }
    Some((val as u16, pos + k))
}

/// Reads a JSON boolean at `pos`.
fn parse_bool(buf: &Vec<char>, pos: usize) -> (r: Option<(bool, usize)>)
    requires
        pos <= buf@.len(),
    ensures
        match r {
            Some((b, p)) => pos < p <= buf@.len() && p_bool(buf@.skip(pos as int)) == Some(
                (b, buf@.skip(p as int)),
            ),
            None => p_bool(buf@.skip(pos as int)) is None,
        },
{
    proof {
        reveal_strlit("true");
        reveal_strlit("false");
    }
    match expect_lit(buf, pos, "true") {
        Some(p) => Some((true, p)),
        None => {
            match expect_lit(buf, pos, "false") {
                Some(p) => Some((false, p)),
                None => None,
            }
        },
    }
}

/// Reads one proxy-rule item at `pos`.
fn parse_rule_item(buf: &Vec<char>, pos: usize) -> (r: Option<(ProxyRuleItem, usize)>)
    requires
        pos <= buf@.len(),
    ensures
        match r {
            Some((it, p)) => pos < p <= buf@.len() && p_rule_item(buf@.skip(pos as int)) == Some(
                (it@, buf@.skip(p as int)),
            ),
            None => p_rule_item(buf@.skip(pos as int)) is None,
        },
{
    let p1 = match expect_lit(buf, pos, "    {\n      \"rule\": {\n        \"host\": ") {
        Some(p) => p,
        None => {
            return None;
        },
    };
    let (host, p2) = match parse_qstr(buf, p1) {
        Some(x) => x,
        None => {
            return None;
        },
    };
    let p3 = match expect_lit(buf, p2, ",\n        \"proxy_host\": ") {
        Some(p) => p,
        None => {
            return None;
        },
    };
    let (proxy_host, p4) = match parse_qstr(buf, p3) {
        Some(x) => x,
        None => {
            return None;
        },
    };
    let p5 = match expect_lit(buf, p4, ",\n        \"proxy_port\": ") {
        Some(p) => p,
        None => {
            return None;
        },
    };
    let (port, p6) = match parse_u16(buf, p5) {
        Some(x) => x,
        None => {
            return None;
        },
    };
    let p7 = match expect_lit(buf, p6, "\n      },\n      \"enabled\": ") {
        Some(p) => p,
        None => {
            return None;
        },
    };
    let (enabled, p8) = match parse_bool(buf, p7) {
        Some(x) => x,
        None => {
            return None;
        },
    };
    let p9 = match expect_lit(buf, p8, "\n    }") {
        Some(p) => p,
        None => {
            return None;
        },
    };
    let item = ProxyRuleItem { rule: ProxyRule { host, proxy_host, proxy_port: port }, enabled };
    proof {
        lemma_layout_chars();
        assert(p_rule_item(buf@.skip(pos as int)) == Some((item@, buf@.skip(p9 as int))));
    }
    Some((item, p9))
}

/// Reads one bypass item at `pos`.
fn parse_bypass_item(buf: &Vec<char>, pos: usize) -> (r: Option<(BypassListItem, usize)>)
    requires
        pos <= buf@.len(),
    ensures
        match r {
            Some((it, p)) => pos < p <= buf@.len() && p_bypass_item(buf@.skip(pos as int)) == Some(
                (it@, buf@.skip(p as int)),
            ),
            None => p_bypass_item(buf@.skip(pos as int)) is None,
        },
{
    let p1 = match expect_lit(buf, pos, "    {\n      \"host\": ") {
        Some(p) => p,
        None => {
            return None;
        },
    };
    let (host, p2) = match parse_qstr(buf, p1) {
        Some(x) => x,
        None => {
            return None;
        },
    };
    let p3 = match expect_lit(buf, p2, ",\n      \"enabled\": ") {
        Some(p) => p,
        None => {
            return None;
        },
    };
    let (enabled, p4) = match parse_bool(buf, p3) {
        Some(x) => x,
        None => {
            return None;
        },
    };
    let p5 = match expect_lit(buf, p4, "\n    }") {
        Some(p) => p,
        None => {
            return None;
        },
    };
    let item = BypassListItem { host, enabled };
    proof {
        lemma_layout_chars();
        assert(p_bypass_item(buf@.skip(pos as int)) == Some((item@, buf@.skip(p5 as int))));
    }
    Some((item, p5))
}

/// Reads one external-function item at `pos`.
fn parse_ext_item(buf: &Vec<char>, pos: usize) -> (r: Option<(ExternalPacFunctionItem, usize)>)
    requires
        pos <= buf@.len(),
    ensures
        match r {
            Some((it, p)) => pos < p <= buf@.len() && p_ext_item(buf@.skip(pos as int)) == Some(
                (it@, buf@.skip(p as int)),
            ),
            None => p_ext_item(buf@.skip(pos as int)) is None,
        },
{
    let p1 = match expect_lit(buf, pos, "    {\n      \"function\": {\n        \"original_url\": ") {
        Some(p) => p,
        None => {
            return None;
        },
    };
    let (original_url, p2) = match parse_qstr(buf, p1) {
        Some(x) => x,
        None => {
            return None;
        },
    };
    let p3 = match expect_lit(buf, p2, ",\n        \"function_name\": ") {
        Some(p) => p,
        None => {
            return None;
        },
    };
    let (function_name, p4) = match parse_qstr(buf, p3) {
        Some(x) => x,
        None => {
            return None;
        },
    };
    let p5 = match expect_lit(buf, p4, ",\n        \"function_text\": ") {
        Some(p) => p,
        None => {
            return None;
        },
    };
    let (function_text, p6) = match parse_qstr(buf, p5) {
        Some(x) => x,
        None => {
            return None;
        },
    };
    let p7 = match expect_lit(buf, p6, "\n      },\n      \"enabled\": ") {
        Some(p) => p,
        None => {
            return None;
        },
    };
    let (enabled, p8) = match parse_bool(buf, p7) {
        Some(x) => x,
        None => {
            return None;
        },
    };
    let p9 = match expect_lit(buf, p8, "\n    }") {
        Some(p) => p,
        None => {
            return None;
        },
    };
    let item = ExternalPacFunctionItem {
        function: ExternalPacFunction { original_url, function_name, function_text },
        enabled,
    };
    proof {
        lemma_layout_chars();
        assert(p_ext_item(buf@.skip(pos as int)) == Some((item@, buf@.skip(p9 as int))));
    }
    Some((item, p9))
}

/// Reads one or more proxy-rule items separated by `,\n`.
fn parse_rule_items(buf: &Vec<char>, pos: usize) -> (r: Option<(VecDeque<ProxyRuleItem>, usize)>)
    requires
        pos <= buf@.len(),
    ensures
        match r {
            Some((items, p)) => pos < p <= buf@.len() && p_rule_items(buf@.skip(pos as int)) == Some(
                (items@.map_values(|x: ProxyRuleItem| x@), buf@.skip(p as int)),
            ),
            None => p_rule_items(buf@.skip(pos as int)) is None,
        },
{
    proof {
        lemma_layout_chars();
    }
    let mut items: VecDeque<ProxyRuleItem> = VecDeque::new();
    let mut cur: usize = pos;
    proof {
        assert(items@.map_values(|x: ProxyRuleItem| x@) =~= Seq::<ProxyRuleItemView>::empty());
    }
    loop
        invariant
            pos <= cur <= buf@.len(),
            pos < cur || cur == pos,
            match p_rule_items(buf@.skip(cur as int)) {
                Some((rest, r2)) => p_rule_items(buf@.skip(pos as int)) == Some(
                    (items@.map_values(|x: ProxyRuleItem| x@) + rest, r2),
                ),
                None => p_rule_items(buf@.skip(pos as int)) is None,
            },
        decreases buf@.len() - cur,
    {
        let (it, p1) = match parse_rule_item(buf, cur) {
            Some(x) => x,
            None => {
                return None;
            },
        };
        let ghost gs = items@.map_values(|x: ProxyRuleItem| x@);
        match expect_lit(buf, p1, ",\n") {
            Some(p2) => {
                proof {
                    lemma_layout_chars();
                    assert(starts_with(buf@.skip(p1 as int), lit_sep()));
                    assert(2 <= buf@.skip(p1 as int).len());
                    assert(buf@.skip(p1 as int).len() < buf@.skip(cur as int).len());
                    assert(buf@.skip(p1 as int).skip(2) =~= buf@.skip(p2 as int));
                }
                items.push_back(it);
                proof {
                    assert(items@.map_values(|x: ProxyRuleItem| x@) =~= gs.push(it@));
                    match p_rule_items(buf@.skip(p2 as int)) {
                        Some((rest, r2)) => {
                            assert(p_rule_items(buf@.skip(cur as int)) == Some(
                                (seq![it@] + rest, r2),
                            ));
                            assert(gs + (seq![it@] + rest) =~= gs.push(it@) + rest);
                        },
                        None => {
                            assert(p_rule_items(buf@.skip(cur as int)) is None);
                        },
                    }
                }
                cur = p2;
            },
            None => {
                proof {
                    lemma_layout_chars();
                    assert(!starts_with(buf@.skip(p1 as int), lit_sep()));
                    assert(p_rule_items(buf@.skip(cur as int)) == Some(
                        (seq![it@], buf@.skip(p1 as int)),
                    ));
                }
                items.push_back(it);
                proof {
                    assert(items@.map_values(|x: ProxyRuleItem| x@) =~= gs.push(it@));
                    assert(gs + seq![it@] =~= gs.push(it@));
                }
                return Some((items, p1));
            },
        }
    }
}

/// Reads a proxy-rule array.
fn parse_rule_items_arr(buf: &Vec<char>, pos: usize) -> (r: Option<(VecDeque<ProxyRuleItem>, usize)>)
    requires
        pos <= buf@.len(),
    ensures
        match r {
            Some((items, p)) => pos < p <= buf@.len() && p_rules_arr(buf@.skip(pos as int)) == Some(
                (items@.map_values(|x: ProxyRuleItem| x@), buf@.skip(p as int)),
            ),
            None => p_rules_arr(buf@.skip(pos as int)) is None,
        },
{
    proof {
        lemma_layout_chars();
    }
    match expect_lit(buf, pos, "[]") {
        Some(p) => {
            let items: VecDeque<ProxyRuleItem> = VecDeque::new();
            proof {
                assert(items@.map_values(|x: ProxyRuleItem| x@) =~= Seq::<ProxyRuleItemView>::empty());
                assert(buf@.skip(pos as int).skip(2) =~= buf@.skip(p as int));
            }
            Some((items, p))
        },
        None => {
            let p1 = match expect_lit(buf, pos, "[\n") {
                Some(p) => p,
                None => {
                    return None;
                },
            };
            let (items, p2) = match parse_rule_items(buf, p1) {
                Some(x) => x,
                None => {
                    return None;
                },
            };
            let p3 = match expect_lit(buf, p2, "\n  ]") {
                Some(p) => p,
                None => {
                    return None;
                },
            };
            Some((items, p3))
        },
    }
}

/// Reads one or more bypass items separated by `,\n`.
fn parse_bypass_items(buf: &Vec<char>, pos: usize) -> (r: Option<(VecDeque<BypassListItem>, usize)>)
    requires
        pos <= buf@.len(),
    ensures
        match r {
            Some((items, p)) => pos < p <= buf@.len() && p_bypass_items(buf@.skip(pos as int)) == Some(
                (items@.map_values(|x: BypassListItem| x@), buf@.skip(p as int)),
            ),
            None => p_bypass_items(buf@.skip(pos as int)) is None,
        },
{
    proof {
        lemma_layout_chars();
    }
    let mut items: VecDeque<BypassListItem> = VecDeque::new();
    let mut cur: usize = pos;
    proof {
        assert(items@.map_values(|x: BypassListItem| x@) =~= Seq::<BypassListItemView>::empty());
    }
    loop
        invariant
            pos <= cur <= buf@.len(),
            pos < cur || cur == pos,
            match p_bypass_items(buf@.skip(cur as int)) {
                Some((rest, r2)) => p_bypass_items(buf@.skip(pos as int)) == Some(
                    (items@.map_values(|x: BypassListItem| x@) + rest, r2),
                ),
                None => p_bypass_items(buf@.skip(pos as int)) is None,
            },
        decreases buf@.len() - cur,
    {
        let (it, p1) = match parse_bypass_item(buf, cur) {
            Some(x) => x,
            None => {
                return None;
            },
        };
        let ghost gs = items@.map_values(|x: BypassListItem| x@);
        match expect_lit(buf, p1, ",\n") {
            Some(p2) => {
                proof {
                    lemma_layout_chars();
                    assert(starts_with(buf@.skip(p1 as int), lit_sep()));
                    assert(2 <= buf@.skip(p1 as int).len());
                    assert(buf@.skip(p1 as int).len() < buf@.skip(cur as int).len());
                    assert(buf@.skip(p1 as int).skip(2) =~= buf@.skip(p2 as int));
                }
                items.push_back(it);
                proof {
                    assert(items@.map_values(|x: BypassListItem| x@) =~= gs.push(it@));
                    match p_bypass_items(buf@.skip(p2 as int)) {
                        Some((rest, r2)) => {
                            assert(p_bypass_items(buf@.skip(cur as int)) == Some(
                                (seq![it@] + rest, r2),
                            ));
                            assert(gs + (seq![it@] + rest) =~= gs.push(it@) + rest);
                        },
                        None => {
                            assert(p_bypass_items(buf@.skip(cur as int)) is None);
                        },
                    }
                }
                cur = p2;
            },
            None => {
                proof {
                    lemma_layout_chars();
                    assert(!starts_with(buf@.skip(p1 as int), lit_sep()));
                    assert(p_bypass_items(buf@.skip(cur as int)) == Some(
                        (seq![it@], buf@.skip(p1 as int)),
                    ));
                }
                items.push_back(it);
                proof {
                    assert(items@.map_values(|x: BypassListItem| x@) =~= gs.push(it@));
                    assert(gs + seq![it@] =~= gs.push(it@));
                }
                return Some((items, p1));
            },
        }
    }
}

/// Reads a bypass array.
fn parse_bypass_items_arr(buf: &Vec<char>, pos: usize) -> (r: Option<(VecDeque<BypassListItem>, usize)>)
    requires
        pos <= buf@.len(),
    ensures
        match r {
            Some((items, p)) => pos < p <= buf@.len() && p_bypass_arr(buf@.skip(pos as int)) == Some(
                (items@.map_values(|x: BypassListItem| x@), buf@.skip(p as int)),
            ),
            None => p_bypass_arr(buf@.skip(pos as int)) is None,
        },
{
    proof {
        lemma_layout_chars();
    }
    match expect_lit(buf, pos, "[]") {
        Some(p) => {
            let items: VecDeque<BypassListItem> = VecDeque::new();
            proof {
                assert(items@.map_values(|x: BypassListItem| x@) =~= Seq::<BypassListItemView>::empty());
                assert(buf@.skip(pos as int).skip(2) =~= buf@.skip(p as int));
            }
            Some((items, p))
        },
        None => {
            let p1 = match expect_lit(buf, pos, "[\n") {
                Some(p) => p,
                None => {
                    return None;
                },
            };
            let (items, p2) = match parse_bypass_items(buf, p1) {
                Some(x) => x,
                None => {
                    return None;
                },
            };
            let p3 = match expect_lit(buf, p2, "\n  ]") {
                Some(p) => p,
                None => {
                    return None;
                },
            };
            Some((items, p3))
        },
    }
}

/// Reads one or more external-function items separated by `,\n`.
fn parse_ext_items(buf: &Vec<char>, pos: usize) -> (r: Option<(VecDeque<ExternalPacFunctionItem>, usize)>)
    requires
        pos <= buf@.len(),
    ensures
        match r {
            Some((items, p)) => pos < p <= buf@.len() && p_ext_items(buf@.skip(pos as int)) == Some(
                (items@.map_values(|x: ExternalPacFunctionItem| x@), buf@.skip(p as int)),
            ),
            None => p_ext_items(buf@.skip(pos as int)) is None,
        },
{
    proof {
        lemma_layout_chars();
    }
    let mut items: VecDeque<ExternalPacFunctionItem> = VecDeque::new();
    let mut cur: usize = pos;
    proof {
        assert(items@.map_values(|x: ExternalPacFunctionItem| x@) =~= Seq::<ExternalPacFunctionItemView>::empty());
    }
    loop
        invariant
            pos <= cur <= buf@.len(),
            pos < cur || cur == pos,
            match p_ext_items(buf@.skip(cur as int)) {
                Some((rest, r2)) => p_ext_items(buf@.skip(pos as int)) == Some(
                    (items@.map_values(|x: ExternalPacFunctionItem| x@) + rest, r2),
                ),
                None => p_ext_items(buf@.skip(pos as int)) is None,
            },
        decreases buf@.len() - cur,
    {
        let (it, p1) = match parse_ext_item(buf, cur) {
            Some(x) => x,
            None => {
                return None;
            },
        };
        let ghost gs = items@.map_values(|x: ExternalPacFunctionItem| x@);
        match expect_lit(buf, p1, ",\n") {
            Some(p2) => {
                proof {
                    lemma_layout_chars();
                    assert(starts_with(buf@.skip(p1 as int), lit_sep()));
                    assert(2 <= buf@.skip(p1 as int).len());
                    assert(buf@.skip(p1 as int).len() < buf@.skip(cur as int).len());
                    assert(buf@.skip(p1 as int).skip(2) =~= buf@.skip(p2 as int));
                }
                items.push_back(it);
                proof {
                    assert(items@.map_values(|x: ExternalPacFunctionItem| x@) =~= gs.push(it@));
                    match p_ext_items(buf@.skip(p2 as int)) {
                        Some((rest, r2)) => {
                            assert(p_ext_items(buf@.skip(cur as int)) == Some(
                                (seq![it@] + rest, r2),
                            ));
                            assert(gs + (seq![it@] + rest) =~= gs.push(it@) + rest);
                        },
                        None => {
                            assert(p_ext_items(buf@.skip(cur as int)) is None);
                        },
                    }
                }
                cur = p2;
            },
            None => {
                proof {
                    lemma_layout_chars();
                    assert(!starts_with(buf@.skip(p1 as int), lit_sep()));
                    assert(p_ext_items(buf@.skip(cur as int)) == Some(
                        (seq![it@], buf@.skip(p1 as int)),
                    ));
                }
                items.push_back(it);
                proof {
                    assert(items@.map_values(|x: ExternalPacFunctionItem| x@) =~= gs.push(it@));
                    assert(gs + seq![it@] =~= gs.push(it@));
                }
                return Some((items, p1));
            },
        }
    }
}

/// Reads a external-function array.
fn parse_ext_items_arr(buf: &Vec<char>, pos: usize) -> (r: Option<(VecDeque<ExternalPacFunctionItem>, usize)>)
    requires
        pos <= buf@.len(),
    ensures
        match r {
            Some((items, p)) => pos < p <= buf@.len() && p_ext_arr(buf@.skip(pos as int)) == Some(
                (items@.map_values(|x: ExternalPacFunctionItem| x@), buf@.skip(p as int)),
            ),
            None => p_ext_arr(buf@.skip(pos as int)) is None,
        },
{
    proof {
        lemma_layout_chars();
    }
    match expect_lit(buf, pos, "[]") {
        Some(p) => {
            let items: VecDeque<ExternalPacFunctionItem> = VecDeque::new();
            proof {
                assert(items@.map_values(|x: ExternalPacFunctionItem| x@) =~= Seq::<ExternalPacFunctionItemView>::empty());
                assert(buf@.skip(pos as int).skip(2) =~= buf@.skip(p as int));
            }
            Some((items, p))
        },
        None => {
            let p1 = match expect_lit(buf, pos, "[\n") {
                Some(p) => p,
                None => {
                    return None;
                },
            };
            let (items, p2) = match parse_ext_items(buf, p1) {
                Some(x) => x,
                None => {
                    return None;
                },
            };
            let p3 = match expect_lit(buf, p2, "\n  ]") {
                Some(p) => p,
                None => {
                    return None;
                },
            };
            Some((items, p3))
        },
    }
}

/// Parses the persisted JSON back into a document.  The accepted input is
/// exactly the layout that `to_json` emits; anything else is an error.
pub fn from_json(s: &str) -> (r: Result<PacConfig, ProxyCatError>)
    ensures
        match r {
            Ok(c) => p_doc(s@) == Some(c@),
            Err(e) => p_doc(s@) is None && e is Pac,
        },
{
    let buf = chars_of(s);
    proof {
        assert(buf@.skip(0) =~= s@);
    }
    let p1 = match expect_lit(&buf, 0, "{\n  \"proxy_rules\": ") {
        Some(p) => p,
        None => {
            return Err(ProxyCatError::Pac("malformed configuration document".to_owned()));
        },
    };
    let (rules, p2) = match parse_rule_items_arr(&buf, p1) {
        Some(x) => x,
        None => {
            return Err(ProxyCatError::Pac("malformed proxy_rules".to_owned()));
        },
    };
    let p3 = match expect_lit(&buf, p2, ",\n  \"bypass_list\": ") {
        Some(p) => p,
        None => {
            return Err(ProxyCatError::Pac("malformed configuration document".to_owned()));
        },
    };
    let (bypass, p4) = match parse_bypass_items_arr(&buf, p3) {
        Some(x) => x,
        None => {
            return Err(ProxyCatError::Pac("malformed bypass_list".to_owned()));
        },
    };
    let p5 = match expect_lit(&buf, p4, ",\n  \"external_pac_functions\": ") {
        Some(p) => p,
        None => {
            return Err(ProxyCatError::Pac("malformed configuration document".to_owned()));
        },
    };
    let (exts, p6) = match parse_ext_items_arr(&buf, p5) {
        Some(x) => x,
        None => {
            return Err(ProxyCatError::Pac("malformed external_pac_functions".to_owned()));
        },
    };
    let p7 = match expect_lit(&buf, p6, "\n}") {
        Some(p) => p,
        None => {
            return Err(ProxyCatError::Pac("malformed configuration document".to_owned()));
        },
    };
    if p7 != buf.len() {
        proof {
            assert(buf@.skip(p7 as int).len() != 0);
        }
        return Err(ProxyCatError::Pac("trailing text after configuration document".to_owned()));
    }
    let c = PacConfig { proxy_rules: rules, bypass_list: bypass, external_pac_functions: exts };
    proof {
        assert(buf@.skip(p7 as int).len() == 0);
        assert(p_doc(s@) == Some(c@)) by {
            assert(c@ =~~= PacConfigView {
                proxy_rules: rules@.map_values(|x: ProxyRuleItem| x@),
                bypass_list: bypass@.map_values(|x: BypassListItem| x@),
                external_pac_functions: exts@.map_values(|x: ExternalPacFunctionItem| x@),
            });
        }
    }
    Ok(c)
}

} // verus!
