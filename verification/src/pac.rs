//! The configuration document: ordered proxy rules, bypass entries and
//! external PAC functions, each carrying an independent `enabled` flag, plus
//! the mutators that the control plane and the reconciler use.

use vstd::prelude::*;
use std::collections::VecDeque;
use crate::errors::ProxyCatError;
use crate::proxy_config::{ProxyConfig, ProxyConfigView};
use crate::strutil::{
    chars_of, is_digit, lemma_val_prefix, split_chars, split_on, str_eq, string_from_chars,
    val_of_digits,
};

verus! {

/// A proxy rule: requests whose host matches `host` go through
/// `proxy_host:proxy_port`.  A `host` of `"*"` matches every host.
#[derive(Debug, Clone, PartialEq)]
pub struct ProxyRule {
    pub host: String,
    pub proxy_host: String,
    pub proxy_port: u16,
}

/// An external PAC function: the URL it was fetched from, the renamed,
/// collision-free symbol, and the full rewritten function text.
#[derive(Debug, Clone, PartialEq)]
pub struct ExternalPacFunction {
    pub original_url: String,
    pub function_name: String,
    pub function_text: String,
}

/// A proxy rule together with its `enabled` flag.
#[derive(Debug, Clone, PartialEq)]
pub struct ProxyRuleItem {
    pub rule: ProxyRule,
    pub enabled: bool,
}

/// A bypass entry together with its `enabled` flag.
#[derive(Debug, Clone, PartialEq)]
pub struct BypassListItem {
    pub host: String,
    pub enabled: bool,
}

/// An external PAC function together with its `enabled` flag.
#[derive(Debug, Clone, PartialEq)]
pub struct ExternalPacFunctionItem {
    pub function: ExternalPacFunction,
    pub enabled: bool,
}

/// The configuration document: three ordered lists.  Order is significant:
/// it governs the evaluation order inside the generated PAC script.
#[derive(Debug, Clone, PartialEq)]
pub struct PacConfig {
    pub proxy_rules: VecDeque<ProxyRuleItem>,
    pub bypass_list: VecDeque<BypassListItem>,
    pub external_pac_functions: VecDeque<ExternalPacFunctionItem>,
}

/// The mathematical value of a proxy rule.
#[verifier::ext_equal]
pub struct ProxyRuleView {
    pub host: Seq<char>,
    pub proxy_host: Seq<char>,
    pub proxy_port: u16,
}

/// The mathematical value of an external PAC function.
#[verifier::ext_equal]
pub struct ExternalPacFunctionView {
    pub original_url: Seq<char>,
    pub function_name: Seq<char>,
    pub function_text: Seq<char>,
}

#[verifier::ext_equal]
pub struct ProxyRuleItemView {
    pub rule: ProxyRuleView,
    pub enabled: bool,
}

#[verifier::ext_equal]
pub struct BypassListItemView {
    pub host: Seq<char>,
    pub enabled: bool,
}

#[verifier::ext_equal]
pub struct ExternalPacFunctionItemView {
    pub function: ExternalPacFunctionView,
    pub enabled: bool,
}

/// The mathematical value of the whole document.
#[verifier::ext_equal]
pub struct PacConfigView {
    pub proxy_rules: Seq<ProxyRuleItemView>,
    pub bypass_list: Seq<BypassListItemView>,
    pub external_pac_functions: Seq<ExternalPacFunctionItemView>,
}

impl View for ProxyRule {
    type V = ProxyRuleView;

    open spec fn view(&self) -> ProxyRuleView {
        ProxyRuleView { host: self.host@, proxy_host: self.proxy_host@, proxy_port: self.proxy_port }
    }
}

impl View for ExternalPacFunction {
    type V = ExternalPacFunctionView;

    open spec fn view(&self) -> ExternalPacFunctionView {
        ExternalPacFunctionView {
            original_url: self.original_url@,
            function_name: self.function_name@,
            function_text: self.function_text@,
        }
    }
}

impl View for ProxyRuleItem {
    type V = ProxyRuleItemView;

    open spec fn view(&self) -> ProxyRuleItemView {
        ProxyRuleItemView { rule: self.rule@, enabled: self.enabled }
    }
}

impl View for BypassListItem {
    type V = BypassListItemView;

    open spec fn view(&self) -> BypassListItemView {
        BypassListItemView { host: self.host@, enabled: self.enabled }
    }
}

impl View for ExternalPacFunctionItem {
    type V = ExternalPacFunctionItemView;

    open spec fn view(&self) -> ExternalPacFunctionItemView {
        ExternalPacFunctionItemView { function: self.function@, enabled: self.enabled }
    }
}

impl View for PacConfig {
    type V = PacConfigView;

    open spec fn view(&self) -> PacConfigView {
        PacConfigView {
            proxy_rules: self.proxy_rules@.map_values(|x: ProxyRuleItem| x@),
            bypass_list: self.bypass_list@.map_values(|x: BypassListItem| x@),
            external_pac_functions: self.external_pac_functions@.map_values(
                |x: ExternalPacFunctionItem| x@,
            ),
        }
    }
}

/// The three lists of the document, as named by the control plane.
#[derive(Debug, Clone, Copy, PartialEq, Eq, Structural)]
pub enum ListKind {
    ProxyRules,
    BypassList,
    ExternalPacFunctions,
}

/// The camel-case list names used in `/toggle` and `/move` URLs.
pub open spec fn spec_parse_list_kind(s: Seq<char>) -> Option<ListKind> {
    if s == "proxyRules"@ {
        Some(ListKind::ProxyRules)
    } else if s == "bypassList"@ {
        Some(ListKind::BypassList)
    } else if s == "externalPacFunctions"@ {
        Some(ListKind::ExternalPacFunctions)
    } else {
        None
    }
}

/// Parses the camel-case list name of a `/toggle` or `/move` URL.
pub fn parse_list_kind(list_id: &str) -> (r: Option<ListKind>)
    ensures
        r == spec_parse_list_kind(list_id@),
{
    if str_eq(list_id, "proxyRules") {
        Some(ListKind::ProxyRules)
    } else if str_eq(list_id, "bypassList") {
        Some(ListKind::BypassList)
    } else if str_eq(list_id, "externalPacFunctions") {
        Some(ListKind::ExternalPacFunctions)
    } else {
        None
    }
}

/// The snake-case list names used in the `/add-item` request body.
pub open spec fn spec_parse_list_type(s: Seq<char>) -> Option<ListKind> {
    if s == "proxy_rules"@ {
        Some(ListKind::ProxyRules)
    } else if s == "bypass_list"@ {
        Some(ListKind::BypassList)
    } else if s == "external_pac_functions"@ {
        Some(ListKind::ExternalPacFunctions)
    } else {
        None
    }
}

/// Parses the snake-case list name of an `/add-item` request body.
pub fn parse_list_type(list_type: &str) -> (r: Option<ListKind>)
    ensures
        r == spec_parse_list_type(list_type@),
{
    if str_eq(list_type, "proxy_rules") {
        Some(ListKind::ProxyRules)
    } else if str_eq(list_type, "bypass_list") {
        Some(ListKind::BypassList)
    } else if str_eq(list_type, "external_pac_functions") {
        Some(ListKind::ExternalPacFunctions)
    } else {
        None
    }
}

/// The length of the named list.
pub open spec fn list_len(d: PacConfigView, list: ListKind) -> nat {
    match list {
        ListKind::ProxyRules => d.proxy_rules.len(),
        ListKind::BypassList => d.bypass_list.len(),
        ListKind::ExternalPacFunctions => d.external_pac_functions.len(),
    }
}

/// The document after flipping the `enabled` flag of entry `i` of the named
/// list.
pub open spec fn toggle_spec(d: PacConfigView, list: ListKind, i: int) -> PacConfigView {
    match list {
        ListKind::ProxyRules => PacConfigView {
            proxy_rules: d.proxy_rules.update(
                i,
                ProxyRuleItemView { enabled: !d.proxy_rules[i].enabled, ..d.proxy_rules[i] },
            ),
            ..d
        },
        ListKind::BypassList => PacConfigView {
            bypass_list: d.bypass_list.update(
                i,
                BypassListItemView { enabled: !d.bypass_list[i].enabled, ..d.bypass_list[i] },
            ),
            ..d
        },
        ListKind::ExternalPacFunctions => PacConfigView {
            external_pac_functions: d.external_pac_functions.update(
                i,
                ExternalPacFunctionItemView {
                    enabled: !d.external_pac_functions[i].enabled,
                    ..d.external_pac_functions[i]
                },
            ),
            ..d
        },
    }
}

/// A sequence after moving the entry at `from` to position `to`.  `to` may
/// equal the length of the sequence; the entry then lands at the end.
pub open spec fn moved_seq<T>(s: Seq<T>, from: int, to: int) -> Seq<T> {
    let dest = if to < s.len() {
        to
    } else {
        s.len() - 1
    };
    s.remove(from).insert(dest, s[from])
}

/// The document after moving entry `from` of the named list to position `to`.
pub open spec fn move_spec(d: PacConfigView, list: ListKind, from: int, to: int) -> PacConfigView {
    match list {
        ListKind::ProxyRules => PacConfigView {
            proxy_rules: moved_seq(d.proxy_rules, from, to),
            ..d
        },
        ListKind::BypassList => PacConfigView { bypass_list: moved_seq(d.bypass_list, from, to), ..d },
        ListKind::ExternalPacFunctions => PacConfigView {
            external_pac_functions: moved_seq(d.external_pac_functions, from, to),
            ..d
        },
    }
}

/// A well-formed symbol name: the fixed prefix followed by at least one
/// character, all of them ASCII letters, digits or underscores.
pub open spec fn is_symbol_name(s: Seq<char>) -> bool {
    &&& s.len() > "FindProxyForURL_"@.len()
    &&& s.take("FindProxyForURL_"@.len() as int) == "FindProxyForURL_"@
    &&& forall|i: int|
        "FindProxyForURL_"@.len() <= i < s.len() ==> crate::extract::is_word_char(#[trigger] s[i])
}

/// Document well-formedness: every proxy port is in `[1, 65535]`, every
/// external function carries a well-formed symbol name, and no two external
/// functions share one.
pub open spec fn wf(d: PacConfigView) -> bool {
    &&& forall|i: int|
        0 <= i < d.proxy_rules.len() ==> (#[trigger] d.proxy_rules[i]).rule.proxy_port >= 1
    &&& forall|i: int|
        0 <= i < d.external_pac_functions.len() ==> is_symbol_name(
            (#[trigger] d.external_pac_functions[i]).function.function_name,
        )
    &&& forall|i: int, j: int|
        0 <= i < j < d.external_pac_functions.len() ==> (
        #[trigger] d.external_pac_functions[i]).function.function_name != (
        #[trigger] d.external_pac_functions[j]).function.function_name
}

/// Whether some bypass entry names `h`.
pub open spec fn contains_host(bl: Seq<BypassListItemView>, h: Seq<char>) -> bool {
    exists|i: int| 0 <= i < bl.len() && (#[trigger] bl[i]).host == h
}

/// `bl`, with an enabled entry for `h` appended when none names `h` yet.
pub open spec fn with_host(bl: Seq<BypassListItemView>, h: Seq<char>) -> Seq<BypassListItemView> {
    if contains_host(bl, h) {
        bl
    } else {
        bl.push(BypassListItemView { host: h, enabled: true })
    }
}

/// `bl` with the three default bypass entries ensured, in the fixed order.
pub open spec fn with_default_bypass(bl: Seq<BypassListItemView>) -> Seq<BypassListItemView> {
    with_host(with_host(with_host(bl, "localhost"@), "127.0.0.1"@), "::1"@)
}

/// The default bypass entries that every initialized document carries.
pub open spec fn has_default_bypass(d: PacConfigView) -> bool {
    &&& contains_host(d.bypass_list, "localhost"@)
    &&& contains_host(d.bypass_list, "127.0.0.1"@)
    &&& contains_host(d.bypass_list, "::1"@)
}

impl PacConfig {
    /// The empty document: no rules and no external functions, and the three
    /// default bypass entries, enabled.
    pub fn empty() -> (r: PacConfig)
        ensures
            r@.proxy_rules.len() == 0,
            r@.external_pac_functions.len() == 0,
            r@.bypass_list.len() == 3,
            r@.bypass_list[0] == (BypassListItemView { host: "localhost"@, enabled: true }),
            r@.bypass_list[1] == (BypassListItemView { host: "127.0.0.1"@, enabled: true }),
            r@.bypass_list[2] == (BypassListItemView { host: "::1"@, enabled: true }),
            wf(r@),
            has_default_bypass(r@),
    {
        let mut bypass: VecDeque<BypassListItem> = VecDeque::new();
        bypass.push_back(BypassListItem { host: "localhost".to_owned(), enabled: true });
        bypass.push_back(BypassListItem { host: "127.0.0.1".to_owned(), enabled: true });
        bypass.push_back(BypassListItem { host: "::1".to_owned(), enabled: true });
        let r = PacConfig {
            proxy_rules: VecDeque::new(),
            bypass_list: bypass,
            external_pac_functions: VecDeque::new(),
        };
        proof {
            assert(r@.bypass_list.len() == 3);
            assert(r@.proxy_rules.len() == 0);
            assert(r@.external_pac_functions.len() == 0);
        }
        r
    }

    /// Flips the `enabled` flag of entry `index` of the named list.  An
    /// out-of-range index is an error and leaves the document unchanged.
    pub fn toggle_item(&mut self, list: ListKind, index: usize) -> (r: Result<(), ProxyCatError>)
        ensures
            match r {
                Ok(()) => index < list_len(old(self)@, list) && final(self)@ == toggle_spec(
                    old(self)@,
                    list,
                    index as int,
                ),
                Err(e) => index >= list_len(old(self)@, list) && final(self)@ == old(self)@ && e
                    is Internal,
            },
            wf(old(self)@) ==> wf(final(self)@),
            has_default_bypass(old(self)@) ==> has_default_bypass(final(self)@),
    {
        proof {
            if index < list_len(old(self)@, list) {
                if wf(old(self)@) {
                    lemma_toggle_preserves_wf(old(self)@, list, index as int);
                }
                if has_default_bypass(old(self)@) {
                    lemma_toggle_preserves_default_bypass(old(self)@, list, index as int);
                }
            }
        }
        match list {
            ListKind::ProxyRules => {
                match self.proxy_rules.remove(index) {
                    Some(mut item) => {
                        item.enabled = !item.enabled;
                        self.proxy_rules.insert(index, item);
                        proof {
                            lemma_remove_insert_is_update(old(self)@.proxy_rules, index as int);
                            assert(self@ =~~= toggle_spec(old(self)@, list, index as int));
                        }
                        Ok(())
                    },
                    None => Err(
                        ProxyCatError::Internal("invalid index for proxyRules".to_owned()),
                    ),
                }
            },
            ListKind::BypassList => {
                match self.bypass_list.remove(index) {
                    Some(mut item) => {
                        item.enabled = !item.enabled;
                        self.bypass_list.insert(index, item);
                        proof {
                            lemma_remove_insert_is_update(old(self)@.bypass_list, index as int);
                            assert(self@ =~~= toggle_spec(old(self)@, list, index as int));
                        }
                        Ok(())
                    },
                    None => Err(
                        ProxyCatError::Internal("invalid index for bypassList".to_owned()),
                    ),
                }
            },
            ListKind::ExternalPacFunctions => {
                match self.external_pac_functions.remove(index) {
                    Some(mut item) => {
                        item.enabled = !item.enabled;
                        self.external_pac_functions.insert(index, item);
                        proof {
                            lemma_remove_insert_is_update(
                                old(self)@.external_pac_functions,
                                index as int,
                            );
                            assert(self@ =~~= toggle_spec(old(self)@, list, index as int));
                        }
                        Ok(())
                    },
                    None => Err(
                        ProxyCatError::Internal(
                            "invalid index for externalPacFunctions".to_owned(),
                        ),
                    ),
                }
            },
        }
    }

    /// Moves entry `from` of the named list to position `to`.  `to` may equal
    /// the list length (move to the end).  Out-of-range indices are an error
    /// and leave the document unchanged.
    pub fn move_item(&mut self, list: ListKind, from: usize, to: usize) -> (r: Result<
        (),
        ProxyCatError,
    >)
        ensures
            match r {
                Ok(()) => from < list_len(old(self)@, list) && to <= list_len(old(self)@, list)
                    && final(self)@ == move_spec(old(self)@, list, from as int, to as int),
                Err(e) => (from >= list_len(old(self)@, list) || to > list_len(old(self)@, list))
                    && final(self)@ == old(self)@ && e is Internal,
            },
            wf(old(self)@) ==> wf(final(self)@),
            has_default_bypass(old(self)@) ==> has_default_bypass(final(self)@),
    {
        proof {
            if from < list_len(old(self)@, list) && to <= list_len(old(self)@, list) {
                if wf(old(self)@) {
                    lemma_move_preserves_wf(old(self)@, list, from as int, to as int);
                }
                if has_default_bypass(old(self)@) {
                    lemma_move_preserves_default_bypass(old(self)@, list, from as int, to as int);
                }
            }
        }
        match list {
            ListKind::ProxyRules => {
                let n = self.proxy_rules.len();
                if from < n && to <= n {
                    let item = self.proxy_rules.remove(from).unwrap();
                    let dest = if to < n {
                        to
                    } else {
                        n - 1
                    };
                    self.proxy_rules.insert(dest, item);
                    proof {
                        assert(self@ =~~= move_spec(old(self)@, list, from as int, to as int));
                    }
                    Ok(())
                } else {
                    Err(ProxyCatError::Internal("invalid indices for proxyRules".to_owned()))
                }
            },
            ListKind::BypassList => {
                let n = self.bypass_list.len();
                if from < n && to <= n {
                    let item = self.bypass_list.remove(from).unwrap();
                    let dest = if to < n {
                        to
                    } else {
                        n - 1
                    };
                    self.bypass_list.insert(dest, item);
                    proof {
                        assert(self@ =~~= move_spec(old(self)@, list, from as int, to as int));
                    }
                    Ok(())
                } else {
                    Err(ProxyCatError::Internal("invalid indices for bypassList".to_owned()))
                }
            },
            ListKind::ExternalPacFunctions => {
                let n = self.external_pac_functions.len();
                if from < n && to <= n {
                    let item = self.external_pac_functions.remove(from).unwrap();
                    let dest = if to < n {
                        to
                    } else {
                        n - 1
                    };
                    self.external_pac_functions.insert(dest, item);
                    proof {
                        assert(self@ =~~= move_spec(old(self)@, list, from as int, to as int));
                    }
                    Ok(())
                } else {
                    Err(
                        ProxyCatError::Internal(
                            "invalid indices for externalPacFunctions".to_owned(),
                        ),
                    )
                }
            },
        }
    }

    /// Appends a proxy rule.  A proxy port of zero is rejected: ports are
    /// confined to `[1, 65535]`.
    pub fn add_proxy_rule_item(&mut self, item: ProxyRuleItem) -> (r: Result<(), ProxyCatError>)
        ensures
            match r {
                Ok(()) => item.rule.proxy_port >= 1 && final(self)@ == (PacConfigView {
                    proxy_rules: old(self)@.proxy_rules.push(item@),
                    ..old(self)@
                }),
                Err(e) => item.rule.proxy_port == 0 && final(self)@ == old(self)@ && e is Internal,
            },
            wf(old(self)@) ==> wf(final(self)@),
            has_default_bypass(old(self)@) ==> has_default_bypass(final(self)@),
    {
        if item.rule.proxy_port == 0 {
            return Err(ProxyCatError::Internal("proxy_port must be in [1, 65535]".to_owned()));
        }
        self.proxy_rules.push_back(item);
        proof {
            assert(self@ =~~= (PacConfigView {
                proxy_rules: old(self)@.proxy_rules.push(item@),
                ..old(self)@
            }));
        }
        Ok(())
    }

    /// Appends a bypass entry.
    pub fn add_bypass_item(&mut self, item: BypassListItem)
        ensures
            final(self)@ == (PacConfigView {
                bypass_list: old(self)@.bypass_list.push(item@),
                ..old(self)@
            }),
            wf(old(self)@) ==> wf(final(self)@),
            has_default_bypass(old(self)@) ==> has_default_bypass(final(self)@),
    {
        self.bypass_list.push_back(item);
        proof {
            assert(self@ =~~= (PacConfigView {
                bypass_list: old(self)@.bypass_list.push(item@),
                ..old(self)@
            }));
            if has_default_bypass(old(self)@) {
                let b0 = old(self)@.bypass_list;
                let j1 = choose|j: int| 0 <= j < b0.len() && (#[trigger] b0[j]).host == "localhost"@;
                assert((self@.bypass_list[j1]).host == "localhost"@);
                let j2 = choose|j: int| 0 <= j < b0.len() && (#[trigger] b0[j]).host == "127.0.0.1"@;
                assert((self@.bypass_list[j2]).host == "127.0.0.1"@);
                let j3 = choose|j: int| 0 <= j < b0.len() && (#[trigger] b0[j]).host == "::1"@;
                assert((self@.bypass_list[j3]).host == "::1"@);
            }
        }
    }

    /// Appends the default bypass entries that are not yet present, in the
    /// fixed order `localhost`, `127.0.0.1`, `::1`.
    pub fn ensure_default_bypass(&mut self)
        ensures
            final(self)@ == (PacConfigView {
                bypass_list: with_default_bypass(old(self)@.bypass_list),
                ..old(self)@
            }),
            has_default_bypass(final(self)@),
            wf(old(self)@) ==> wf(final(self)@),
    {
        self.ensure_bypass_host("localhost");
        self.ensure_bypass_host("127.0.0.1");
        self.ensure_bypass_host("::1");
        proof {
            assert(self@ =~~= (PacConfigView {
                bypass_list: with_default_bypass(old(self)@.bypass_list),
                ..old(self)@
            }));
            lemma_with_default_bypass(old(self)@.bypass_list);
            assert(self@.bypass_list == with_default_bypass(old(self)@.bypass_list));
        }
    }

    /// Appends an enabled bypass entry for `host` if no entry with that host
    /// is present yet.
    fn ensure_bypass_host(&mut self, host: &str)
        ensures
            final(self)@ == (PacConfigView {
                bypass_list: with_host(old(self)@.bypass_list, host@),
                ..old(self)@
            }),
    {
        let n = self.bypass_list.len();
        let mut i: usize = 0;
        while i < n
            invariant
                n == self.bypass_list@.len(),
                i <= n,
                *self == *old(self),
                forall|j: int| 0 <= j < i ==> (#[trigger] self@.bypass_list[j]).host != host@,
            decreases n - i,
        {
            if str_eq(self.bypass_list[i].host.as_str(), host) {
                proof {
                    assert((self@.bypass_list[i as int]).host == host@);
                    assert(contains_host(self@.bypass_list, host@));
                    assert(self@ =~~= (PacConfigView {
                        bypass_list: with_host(old(self)@.bypass_list, host@),
                        ..old(self)@
                    }));
                }
                return;
            }
            i = i + 1;
        }
        let ghost pre = self@;
        proof {
            assert(!contains_host(pre.bypass_list, host@));
        }
        self.bypass_list.push_back(BypassListItem { host: host.to_owned(), enabled: true });
        proof {
            assert(self@.bypass_list =~= pre.bypass_list.push(
                BypassListItemView { host: host@, enabled: true },
            ));
            assert(self@ =~~= (PacConfigView {
                bypass_list: with_host(pre.bypass_list, host@),
                ..pre
            }));
        }
    }
}

/// The digits of a port number: nonempty, decimal, value at most 65535.
pub open spec fn is_u16_digits(ds: Seq<char>) -> bool {
    &&& ds.len() >= 1
    &&& forall|i: int| 0 <= i < ds.len() ==> is_digit(#[trigger] ds[i])
    &&& val_of_digits(ds) <= 65535
}

/// Parsing a `host:port` proxy server string: exactly one colon, and a port
/// in `[1, 65535]`.
pub open spec fn spec_parse_proxy_server(s: Seq<char>) -> Option<(Seq<char>, u16)> {
    let parts = split_on(s, ':');
    if parts.len() == 2 && is_u16_digits(parts[1]) && val_of_digits(parts[1]) >= 1 {
        Some((parts[0], val_of_digits(parts[1]) as u16))
    } else {
        None
    }
}

/// The proxy rules derived from the OS proxy server setting: one enabled
/// catch-all rule when the setting parses, none otherwise.
pub open spec fn windows_rules(ps: Option<Seq<char>>) -> Seq<ProxyRuleItemView> {
    match ps {
        None => Seq::empty(),
        Some(p) => match spec_parse_proxy_server(p) {
            None => Seq::empty(),
            Some((h, port)) => seq![
                ProxyRuleItemView {
                    rule: ProxyRuleView { host: "*"@, proxy_host: h, proxy_port: port },
                    enabled: true,
                },
            ],
        },
    }
}

/// The three default bypass entries, enabled.
pub open spec fn default_bypass_entries() -> Seq<BypassListItemView> {
    seq![
        BypassListItemView { host: "localhost"@, enabled: true },
        BypassListItemView { host: "127.0.0.1"@, enabled: true },
        BypassListItemView { host: "::1"@, enabled: true },
    ]
}

/// Whether a part of the OS bypass list is nonempty.
pub open spec fn nonempty_part() -> spec_fn(Seq<char>) -> bool {
    |p: Seq<char>| p.len() != 0
}

/// An enabled bypass entry for a host taken from the OS bypass list.
pub open spec fn bypass_entry_of() -> spec_fn(Seq<char>) -> BypassListItemView {
    |h: Seq<char>| BypassListItemView { host: h, enabled: true }
}

/// The bypass entries derived from the OS bypass setting: its nonempty
/// semicolon-separated parts, enabled, or the defaults when it is absent.
pub open spec fn windows_bypass(pb: Option<Seq<char>>) -> Seq<BypassListItemView> {
    match pb {
        None => default_bypass_entries(),
        Some(b) => split_on(b, ';').filter(nonempty_part()).map_values(bypass_entry_of()),
    }
}

/// The document synthesized from an OS proxy snapshot.
pub open spec fn spec_from_windows(c: ProxyConfigView) -> PacConfigView {
    PacConfigView {
        proxy_rules: windows_rules(c.proxy_server),
        bypass_list: with_default_bypass(windows_bypass(c.proxy_bypass)),
        external_pac_functions: Seq::empty(),
    }
}

/// `with_host` keeps every host that was present.
proof fn lemma_with_host_preserves(bl: Seq<BypassListItemView>, h: Seq<char>, h2: Seq<char>)
    requires
        contains_host(bl, h2),
    ensures
        contains_host(with_host(bl, h), h2),
{
    let i = choose|i: int| 0 <= i < bl.len() && (#[trigger] bl[i]).host == h2;
    assert((with_host(bl, h)[i]).host == h2);
}

/// `with_host` establishes its host.
proof fn lemma_with_host_adds(bl: Seq<BypassListItemView>, h: Seq<char>)
    ensures
        contains_host(with_host(bl, h), h),
{
    if !contains_host(bl, h) {
        assert((with_host(bl, h)[bl.len() as int]).host == h);
    }
}

/// The three default hosts are present after `with_default_bypass`.
pub proof fn lemma_with_default_bypass(bl: Seq<BypassListItemView>)
    ensures
        contains_host(with_default_bypass(bl), "localhost"@),
        contains_host(with_default_bypass(bl), "127.0.0.1"@),
        contains_host(with_default_bypass(bl), "::1"@),
{
    let b1 = with_host(bl, "localhost"@);
    let b2 = with_host(b1, "127.0.0.1"@);
    lemma_with_host_adds(bl, "localhost"@);
    lemma_with_host_preserves(b1, "127.0.0.1"@, "localhost"@);
    lemma_with_host_preserves(b2, "::1"@, "localhost"@);
    lemma_with_host_adds(b1, "127.0.0.1"@);
    lemma_with_host_preserves(b2, "::1"@, "127.0.0.1"@);
    lemma_with_host_adds(b2, "::1"@);
}

/// Parses a proxy server string in the form `host:port`.
pub fn parse_proxy_server(proxy: &str) -> (r: Option<(String, u16)>)
    ensures
        match r {
            Some((h, p)) => spec_parse_proxy_server(proxy@) == Some((h@, p)),
            None => spec_parse_proxy_server(proxy@) is None,
        },
{
    let cs = chars_of(proxy);
    let parts = split_chars(&cs, ':');
    proof {
        assert(parts.deep_view().len() == parts@.len());
    }
    if parts.len() != 2 {
        return None;
    }
    proof {
        assert(parts@[1]@ == parts.deep_view()[1]);
        assert(parts@[0]@ == parts.deep_view()[0]);
    }
    let port_part = &parts[1];
    let ghost ds = split_on(proxy@, ':')[1];
    proof {
        assert(parts.deep_view() == split_on(proxy@, ':'));
        assert(port_part@ == ds);
    }
    let m = port_part.len();
    if m == 0 {
        return None;
    }
    let mut val: u32 = 0;
    let mut i: usize = 0;
    while i < m
        invariant
            m == port_part@.len(),
            port_part@ == ds,
            split_on(proxy@, ':').len() == 2,
            ds == split_on(proxy@, ':')[1],
            parts@.len() == 2,
            parts@[0]@ == split_on(proxy@, ':')[0],
            i <= m,
            val == val_of_digits(ds.take(i as int)),
            val <= 65535,
            forall|j: int| 0 <= j < i ==> is_digit(#[trigger] ds[j]),
        decreases m - i,
    {
        let c = port_part[i];
        let code = c as u32;
        if code < 48 || code > 57 {
            proof {
                assert(!is_digit(ds[i as int]));
            }
            return None;
        }
        proof {
            assert(ds.take(i as int + 1).drop_last() =~= ds.take(i as int));
            assert(ds.take(i as int + 1).last() == ds[i as int]);
        }
        val = val * 10 + (code - 48);
        i = i + 1;
        if val > 65535 {
            proof {
                lemma_val_prefix(ds, i as int);
            }
            return None;
        }
    }
    proof {
        assert(ds.take(m as int) =~= ds);
    }
    if val == 0 {
        return None;
    }
    let host = string_from_chars(&parts[0]);
    Some((host, val as u16))
}

impl PacConfig {
    /// Synthesizes a document from an OS proxy snapshot: a catch-all rule for
    /// a parseable proxy server, the OS bypass list (or the defaults), and
    /// the default bypass entries ensured.
    pub fn from_windows_config(config: &ProxyConfig) -> (r: PacConfig)
        ensures
            r@ == spec_from_windows(config@),
            wf(r@),
            has_default_bypass(r@),
    {
        let mut pac = PacConfig::empty();
        proof {
            assert(pac@.bypass_list =~= default_bypass_entries());
            assert(pac@.proxy_rules =~= Seq::<ProxyRuleItemView>::empty());
            assert(pac@.external_pac_functions =~= Seq::<ExternalPacFunctionItemView>::empty());
        }
        match &config.proxy_server {
            Some(ps) => {
                match parse_proxy_server(ps.as_str()) {
                    Some((host, port)) => {
                        pac.proxy_rules.push_back(
                            ProxyRuleItem {
                                rule: ProxyRule {
                                    host: "*".to_owned(),
                                    proxy_host: host,
                                    proxy_port: port,
                                },
                                enabled: true,
                            },
                        );
                        proof {
                            assert(pac@.proxy_rules =~= windows_rules(config@.proxy_server));
                        }
                    },
                    None => {
                        proof {
                            assert(pac@.proxy_rules =~= windows_rules(config@.proxy_server));
                        }
                    },
                }
            },
            None => {
                proof {
                    assert(pac@.proxy_rules =~= windows_rules(config@.proxy_server));
                }
            },
        }
        match &config.proxy_bypass {
            Some(b) => {
                let bcs = chars_of(b.as_str());
                let parts = split_chars(&bcs, ';');
                let ghost sparts = split_on(b@, ';');
                let mut entries: VecDeque<BypassListItem> = VecDeque::new();
                let np = parts.len();
                let mut i: usize = 0;
                proof {
                    assert(sparts.take(0) =~= Seq::<Seq<char>>::empty());
                    reveal(Seq::filter);
                    assert(entries@.map_values(|x: BypassListItem| x@) =~= sparts.take(
                        0,
                    ).filter(nonempty_part()).map_values(bypass_entry_of()));
                }
                while i < np
                    invariant
                        np == parts@.len(),
                        parts.deep_view() == sparts,
                        i <= np,
                        entries@.map_values(|x: BypassListItem| x@) == sparts.take(
                            i as int,
                        ).filter(nonempty_part()).map_values(bypass_entry_of()),
                    decreases np - i,
                {
                    proof {
                        reveal(Seq::filter);
                        assert(sparts.take(i as int + 1).drop_last() =~= sparts.take(i as int));
                        assert(sparts.take(i as int + 1).last() == sparts[i as int]);
                        assert(parts@[i as int]@ == sparts[i as int]);
                    }
                    let part = &parts[i];
                    if part.len() > 0 {
                        let host = string_from_chars(part);
                        let ghost m0 = entries@.map_values(|x: BypassListItem| x@);
                        let ghost entry = BypassListItemView { host: sparts[i as int], enabled: true };
                        entries.push_back(BypassListItem { host, enabled: true });
                        proof {
                            reveal(Seq::filter);
                            assert(nonempty_part()(sparts[i as int]));
                            assert(bypass_entry_of()(sparts[i as int]) == entry);
                            assert(entries@.map_values(|x: BypassListItem| x@) =~= m0.push(entry));
                            assert(sparts.take(i as int + 1).filter(nonempty_part()) == sparts.take(
                                i as int,
                            ).filter(nonempty_part()).push(sparts[i as int]));
                            assert(sparts.take(i as int + 1).filter(nonempty_part()).map_values(
                                bypass_entry_of(),
                            ) =~= m0.push(entry));
                        }
                    } else {
                        proof {
                            reveal(Seq::filter);
                            assert(!nonempty_part()(sparts[i as int]));
                            assert(entries@.map_values(|x: BypassListItem| x@) =~= sparts.take(
                                i as int + 1,
                            ).filter(nonempty_part()).map_values(bypass_entry_of()));
                        }
                    }
                    i = i + 1;
                }
                proof {
                    assert(sparts.take(np as int) =~= sparts);
                }
                pac.bypass_list = entries;
                proof {
                    assert(pac@.bypass_list =~= windows_bypass(config@.proxy_bypass));
                }
            },
            None => {
                proof {
                    assert(pac@.bypass_list =~= windows_bypass(config@.proxy_bypass));
                }
            },
        }
        pac.ensure_default_bypass();
        proof {
            assert(pac@ =~~= spec_from_windows(config@));
        }
        pac
    }
}

impl Default for PacConfig {
    /// The empty document with the default bypass entries.
    fn default() -> (r: PacConfig)
        ensures
            r@.proxy_rules.len() == 0,
            r@.external_pac_functions.len() == 0,
            r@.bypass_list == default_bypass_entries(),
            wf(r@),
            has_default_bypass(r@),
    {
        let r = PacConfig::empty();
        proof {
            assert(r@.bypass_list =~= default_bypass_entries());
        }
        r
    }
}

/// Removing entry `i` and re-inserting a replacement at the same position is
/// the same as updating the entry in place.
pub proof fn lemma_remove_insert_is_update<T>(s: Seq<T>, i: int)
    requires
        0 <= i < s.len(),
    ensures
        forall|x: T| s.remove(i).insert(i, x) =~= s.update(i, x),
{
}

/// Two toggles of the same entry restore the document.
pub proof fn lemma_toggle_involution(d: PacConfigView, list: ListKind, i: int)
    requires
        0 <= i < list_len(d, list),
    ensures
        toggle_spec(toggle_spec(d, list, i), list, i) == d,
{
    assert(toggle_spec(toggle_spec(d, list, i), list, i) =~~= d);
}

/// Moving an entry onto its own position leaves the document unchanged.
pub proof fn lemma_move_same_index(d: PacConfigView, list: ListKind, i: int)
    requires
        0 <= i < list_len(d, list),
    ensures
        move_spec(d, list, i, i) == d,
{
    assert(move_spec(d, list, i, i) =~~= d);
}

/// Toggling preserves the default bypass entries: it changes no host.
pub proof fn lemma_toggle_preserves_default_bypass(d: PacConfigView, list: ListKind, i: int)
    requires
        has_default_bypass(d),
        0 <= i < list_len(d, list),
    ensures
        has_default_bypass(toggle_spec(d, list, i)),
{
    let d2 = toggle_spec(d, list, i);
    assert forall|h: Seq<char>| contains_host(d.bypass_list, h) implies contains_host(
        d2.bypass_list,
        h,
    ) by {
        let j = choose|j: int| 0 <= j < d.bypass_list.len() && (#[trigger] d.bypass_list[j]).host == h;
        assert((d2.bypass_list[j]).host == h);
    }
}

/// Moving preserves the default bypass entries: every entry keeps its host.
pub proof fn lemma_move_preserves_default_bypass(
    d: PacConfigView,
    list: ListKind,
    from: int,
    to: int,
)
    requires
        has_default_bypass(d),
        0 <= from < list_len(d, list),
        0 <= to <= list_len(d, list),
    ensures
        has_default_bypass(move_spec(d, list, from, to)),
{
    let d2 = move_spec(d, list, from, to);
    if list is BypassList {
        let s = d.bypass_list;
        let m = d2.bypass_list;
        assert forall|h: Seq<char>| contains_host(s, h) implies contains_host(m, h) by {
            let j = choose|j: int| 0 <= j < s.len() && (#[trigger] s[j]).host == h;
            let t = target_index(s.len() as int, from, to, j);
            assert((m[t]).host == h);
        }
    } else {
        assert(d2.bypass_list == d.bypass_list);
        let bl = d.bypass_list;
        assert forall|h: Seq<char>| contains_host(bl, h) implies contains_host(
            d2.bypass_list,
            h,
        ) by {
            let j = choose|j: int| 0 <= j < bl.len() && (#[trigger] bl[j]).host == h;
            assert((d2.bypass_list[j]).host == h);
        }
    }
}

/// The position that entry `j` of the original sequence occupies in
/// `moved_seq(s, from, to)`.
spec fn target_index(len: int, from: int, to: int, j: int) -> int {
    let dest = if to < len {
        to
    } else {
        len - 1
    };
    if j == from {
        dest
    } else {
        let j2 = if j < from {
            j
        } else {
            j - 1
        };
        if j2 < dest {
            j2
        } else {
            j2 + 1
        }
    }
}

/// Toggling preserves well-formedness: it changes no port and no symbol name.
pub proof fn lemma_toggle_preserves_wf(d: PacConfigView, list: ListKind, i: int)
    requires
        wf(d),
        0 <= i < list_len(d, list),
    ensures
        wf(toggle_spec(d, list, i)),
{
}

/// Moving preserves well-formedness: the multiset of entries is unchanged.
pub proof fn lemma_move_preserves_wf(d: PacConfigView, list: ListKind, from: int, to: int)
    requires
        wf(d),
        0 <= from < list_len(d, list),
        0 <= to <= list_len(d, list),
    ensures
        wf(move_spec(d, list, from, to)),
{
    match list {
        ListKind::ProxyRules => {
            lemma_moved_seq_elements(d.proxy_rules, from, to);
        },
        ListKind::BypassList => {
            lemma_moved_seq_elements(d.bypass_list, from, to);
        },
        ListKind::ExternalPacFunctions => {
            lemma_moved_seq_elements(d.external_pac_functions, from, to);
        },
    }
}

/// Every entry of a moved sequence is the entry of the original at
/// `source_index`, and distinct positions come from distinct positions.
proof fn lemma_moved_seq_elements<T>(s: Seq<T>, from: int, to: int)
    requires
        0 <= from < s.len(),
        0 <= to <= s.len(),
    ensures
        moved_seq(s, from, to).len() == s.len(),
        forall|i: int|
            0 <= i < s.len() ==> {
                let j = source_index(s.len() as int, from, to, i);
                0 <= j < s.len() && #[trigger] moved_seq(s, from, to)[i] == s[j]
            },
        forall|i: int, j: int|
            0 <= i < j < s.len() ==> source_index(s.len() as int, from, to, i) != source_index(
                s.len() as int,
                from,
                to,
                j,
            ),
{
    let m = moved_seq(s, from, to);
    let len = s.len() as int;
    assert forall|i: int| 0 <= i < s.len() implies {
        let j = source_index(len, from, to, i);
        0 <= j < s.len() && #[trigger] m[i] == s[j]
    } by {
        let j = source_index(len, from, to, i);
        assert(m[i] == s[j]);
    }
}

/// The position in the original sequence that position `i` of
/// `moved_seq(s, from, to)` comes from.
spec fn source_index(len: int, from: int, to: int, i: int) -> int {
    let dest = if to < len {
        to
    } else {
        len - 1
    };
    if i == dest {
        from
    } else {
        let pre = if i < dest {
            i
        } else {
            i - 1
        };
        if pre < from {
            pre
        } else {
            pre + 1
        }
    }
}

} // verus!
