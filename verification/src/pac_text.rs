//! The PAC generator: renders the configuration document into one
//! self-contained JavaScript PAC script, and a decision model of what that
//! script returns when no external function takes part.

use vstd::prelude::*;
use crate::pac::{
    BypassListItemView, ExternalPacFunctionItemView, PacConfig, PacConfigView, ProxyRuleItemView,
    ProxyRuleView,
};
use crate::strutil::{dec_digits, push_str_chars, push_u16, str_eq, string_from_chars};

verus! {

/// Joins the rendered items, in order, separated by `sep`.  An item rendered
/// as `None` takes no part.
pub open spec fn joined<A>(
    items: Seq<A>,
    render: spec_fn(A) -> Option<Seq<char>>,
    sep: Seq<char>,
) -> Seq<char>
    decreases items.len(),
{
    if items.len() == 0 {
        Seq::empty()
    } else {
        let rest = joined(items.drop_last(), render, sep);
        match render(items.last()) {
            None => rest,
            Some(t) => if any_rendered(items.drop_last(), render) {
                rest + sep + t
            } else {
                t
            },
        }
    }
}

/// Whether any item renders to text.
pub open spec fn any_rendered<A>(items: Seq<A>, render: spec_fn(A) -> Option<Seq<char>>) -> bool
    decreases items.len(),
{
    if items.len() == 0 {
        false
    } else {
        render(items.last()) is Some || any_rendered(items.drop_last(), render)
    }
}

/// When no item renders, the join is empty.
proof fn lemma_joined_none_empty<A>(
    items: Seq<A>,
    render: spec_fn(A) -> Option<Seq<char>>,
    sep: Seq<char>,
)
    requires
        !any_rendered(items, render),
    ensures
        joined(items, render, sep) == Seq::<char>::empty(),
    decreases items.len(),
{
    if items.len() > 0 {
        lemma_joined_none_empty(items.drop_last(), render, sep);
    }
}

/// The rendering of one bypass entry inside the bypass disjunction.
pub open spec fn bypass_render() -> spec_fn(BypassListItemView) -> Option<Seq<char>> {
    |b: BypassListItemView|
        if b.enabled {
            Some("host === '"@ + b.host + "'"@)
        } else {
            None
        }
}

/// The bypass disjunction: the literal `false` when no entry is enabled,
/// otherwise the enabled entries joined with ` || `, in document order.
pub open spec fn bypass_condition(bl: Seq<BypassListItemView>) -> Seq<char> {
    if any_rendered(bl, bypass_render()) {
        joined(bl, bypass_render(), " || "@)
    } else {
        "false"@
    }
}

/// The proxy directive string of a rule.
pub open spec fn proxy_directive(r: ProxyRuleView) -> Seq<char> {
    "PROXY "@ + r.proxy_host + ":"@ + dec_digits(r.proxy_port as nat)
}

/// The rendering of one enabled proxy rule: an unconditional return for the
/// catch-all pattern `*`, a host-guarded return otherwise.
pub open spec fn rule_render() -> spec_fn(ProxyRuleItemView) -> Option<Seq<char>> {
    |it: ProxyRuleItemView|
        if it.enabled {
            if it.rule.host == "*"@ {
                Some("return '"@ + proxy_directive(it.rule) + "';"@)
            } else {
                Some(
                    "if (host == '"@ + it.rule.host + "') return '"@ + proxy_directive(it.rule)
                        + "';"@,
                )
            }
        } else {
            None
        }
}

/// The proxy-rules block: the enabled rules, in document order.
pub open spec fn rules_text(rules: Seq<ProxyRuleItemView>) -> Seq<char> {
    joined(rules, rule_render(), "\n    "@)
}

/// The rendering of one enabled external function body.
pub open spec fn body_render() -> spec_fn(ExternalPacFunctionItemView) -> Option<Seq<char>> {
    |it: ExternalPacFunctionItemView|
        if it.enabled {
            Some(it.function.function_text)
        } else {
            None
        }
}

/// The bodies of the enabled external functions, in document order.
pub open spec fn external_bodies(es: Seq<ExternalPacFunctionItemView>) -> Seq<char> {
    joined(es, body_render(), "\n\n"@)
}

/// The rendering of one enabled external-function trampoline: call the
/// renamed function and return its result when it is a nonempty string.
pub open spec fn call_render() -> spec_fn(ExternalPacFunctionItemView) -> Option<Seq<char>> {
    |it: ExternalPacFunctionItemView|
        if it.enabled {
            Some(
                "    // Try external PAC function from "@ + it.function.original_url
                    + "\n    const result"@ + it.function.function_name + " = "@
                    + it.function.function_name + "(url, host);\n    if (!isEmptyStringSafe(result"@
                    + it.function.function_name + ")) return result"@ + it.function.function_name
                    + ";"@,
            )
        } else {
            None
        }
}

/// The trampolines of the enabled external functions, in document order.
pub open spec fn external_calls(es: Seq<ExternalPacFunctionItemView>) -> Seq<char> {
    joined(es, call_render(), "\n"@)
}

/// The opening of the generated script, up to the external function bodies.
pub open spec fn pac_head() -> Seq<char> {
    "\nfunction FindProxyForURL(url, host) {\n\n    function isEmptyStringSafe(str) {\n        // Handle null/undefined\n        if (str == null) return true;\n        // Handle non-string types\n        if (typeof str !== 'string') return true;\n        return str.length === 0;\n    }\n\n    // All external PAC functions first\n    "@
}

/// The text between the external bodies and the bypass condition.
pub open spec fn pac_mid_bypass() -> Seq<char> {
    "\n    \n    // Bypass list - URLs matching these patterns will bypass the proxy\n    if ("@
}

/// The text between the bypass condition and the trampolines.
pub open spec fn pac_mid_calls() -> Seq<char> {
    ") {\n        return \"DIRECT\";\n    }\n    \n    // Try external PAC functions\n    "@
}

/// The text between the trampolines and the proxy rules.
pub open spec fn pac_mid_rules() -> Seq<char> {
    "\n\n    // Proxy rules - check each rule against the host\n    "@
}

/// The closing of the generated script.
pub open spec fn pac_tail() -> Seq<char> {
    "\n    \n    // Default to direct connection if no rules match\n    return \"DIRECT\";\n}"@
}

/// The whole generated PAC script for a document.
pub open spec fn pac_text(d: PacConfigView) -> Seq<char> {
    pac_head() + external_bodies(d.external_pac_functions) + pac_mid_bypass() + bypass_condition(
        d.bypass_list,
    ) + pac_mid_calls() + external_calls(d.external_pac_functions) + pac_mid_rules() + rules_text(
        d.proxy_rules,
    ) + pac_tail()
}

/// Appends the proxy directive of a rule to `buf`.
fn push_proxy_directive(buf: &mut Vec<char>, proxy_host: &str, proxy_port: u16)
    ensures
        final(buf)@ == old(buf)@ + "PROXY "@ + proxy_host@ + ":"@ + dec_digits(proxy_port as nat),
{
    push_str_chars(buf, "PROXY ");
    push_str_chars(buf, proxy_host);
    push_str_chars(buf, ":");
    push_u16(buf, proxy_port);
}

impl PacConfig {
    /// Appends the bodies of the enabled external functions to `buf`.
    fn push_external_bodies(&self, buf: &mut Vec<char>)
        ensures
            final(buf)@ == old(buf)@ + external_bodies(self@.external_pac_functions),
    {
        let ghost es = self@.external_pac_functions;
        let n = self.external_pac_functions.len();
        let mut i: usize = 0;
        let mut first = true;
        while i < n
            invariant
                n == es.len(),
                es == self@.external_pac_functions,
                i <= n,
                first == !any_rendered(es.take(i as int), body_render()),
                buf@ == old(buf)@ + joined(es.take(i as int), body_render(), "\n\n"@),
            decreases n - i,
        {
            proof {
                assert(es.take(i as int + 1).drop_last() =~= es.take(i as int));
                assert(es.take(i as int + 1).last() == es[i as int]);
            }
            let item = &self.external_pac_functions[i];
            proof {
                assert(es[i as int] == self.external_pac_functions@[i as int]@);
            }
            if item.enabled {
                let ghost pre_buf = buf@;
                if !first {
                    push_str_chars(buf, "\n\n");
                }
                push_str_chars(buf, item.function.function_text.as_str());
                proof {
                    let t = es[i as int].function.function_text;
                    assert(body_render()(es[i as int]) == Some(t));
                    assert(item.function.function_text@ == t);
                    if first {
                        lemma_joined_none_empty(es.take(i as int), body_render(), "\n\n"@);
                        assert(buf@ == pre_buf + t);
                        assert(joined(es.take(i as int + 1), body_render(), "\n\n"@) == t);
                    } else {
                        assert(buf@ == pre_buf + "\n\n"@ + t);
                        assert(joined(es.take(i as int + 1), body_render(), "\n\n"@) == joined(
                            es.take(i as int),
                            body_render(),
                            "\n\n"@,
                        ) + "\n\n"@ + t);
                    }
                }
                first = false;
                proof {
                    assert(buf@ =~= old(buf)@ + joined(es.take(i as int + 1), body_render(), "\n\n"@));
                }
            } else {
                proof {
                    assert(body_render()(es[i as int]) is None);
                }
            }
            i = i + 1;
        }
        proof {
            assert(es.take(n as int) =~= es);
        }
    }

    /// Appends the trampolines of the enabled external functions to `buf`.
    fn push_external_calls(&self, buf: &mut Vec<char>)
        ensures
            final(buf)@ == old(buf)@ + external_calls(self@.external_pac_functions),
    {
        let ghost es = self@.external_pac_functions;
        let n = self.external_pac_functions.len();
        let mut i: usize = 0;
        let mut first = true;
        while i < n
            invariant
                n == es.len(),
                es == self@.external_pac_functions,
                i <= n,
                first == !any_rendered(es.take(i as int), call_render()),
                buf@ == old(buf)@ + joined(es.take(i as int), call_render(), "\n"@),
            decreases n - i,
        {
            proof {
                assert(es.take(i as int + 1).drop_last() =~= es.take(i as int));
                assert(es.take(i as int + 1).last() == es[i as int]);
            }
            let item = &self.external_pac_functions[i];
            proof {
                assert(es[i as int] == self.external_pac_functions@[i as int]@);
                if es[i as int].enabled {
                    assert(call_render()(es[i as int]) is Some);
                } else {
                    assert(call_render()(es[i as int]) is None);
                }
            }
            if item.enabled {
                proof {
                    if first {
                        lemma_joined_none_empty(es.take(i as int), call_render(), "\n"@);
                    }
                }
                if !first {
                    push_str_chars(buf, "\n");
                }
                let name = item.function.function_name.as_str();
                push_str_chars(buf, "    // Try external PAC function from ");
                push_str_chars(buf, item.function.original_url.as_str());
                push_str_chars(buf, "\n    const result");
                push_str_chars(buf, name);
                push_str_chars(buf, " = ");
                push_str_chars(buf, name);
                push_str_chars(buf, "(url, host);\n    if (!isEmptyStringSafe(result");
                push_str_chars(buf, name);
                push_str_chars(buf, ")) return result");
                push_str_chars(buf, name);
                push_str_chars(buf, ";");
                first = false;
                proof {
                    assert(buf@ =~= old(buf)@ + joined(
                        es.take(i as int + 1),
                        call_render(),
                        "\n"@,
                    ));
                }
            }
            i = i + 1;
        }
        proof {
            assert(es.take(n as int) =~= es);
        }
    }

    /// Appends the bypass disjunction to `buf`.
    fn push_bypass_condition(&self, buf: &mut Vec<char>)
        ensures
            final(buf)@ == old(buf)@ + bypass_condition(self@.bypass_list),
    {
        let ghost bl = self@.bypass_list;
        let n = self.bypass_list.len();
        let mut i: usize = 0;
        let mut first = true;
        let mut cond: Vec<char> = Vec::new();
        while i < n
            invariant
                n == bl.len(),
                bl == self@.bypass_list,
                i <= n,
                first == !any_rendered(bl.take(i as int), bypass_render()),
                cond@ == joined(bl.take(i as int), bypass_render(), " || "@),
            decreases n - i,
        {
            proof {
                assert(bl.take(i as int + 1).drop_last() =~= bl.take(i as int));
                assert(bl.take(i as int + 1).last() == bl[i as int]);
            }
            let item = &self.bypass_list[i];
            proof {
                assert(bl[i as int] == self.bypass_list@[i as int]@);
                if bl[i as int].enabled {
                    assert(bypass_render()(bl[i as int]) == Some(
                        "host === '"@ + bl[i as int].host + "'"@,
                    ));
                } else {
                    assert(bypass_render()(bl[i as int]) is None);
                }
            }
            if item.enabled {
                proof {
                    if first {
                        lemma_joined_none_empty(bl.take(i as int), bypass_render(), " || "@);
                    }
                }
                if !first {
                    push_str_chars(&mut cond, " || ");
                }
                push_str_chars(&mut cond, "host === '");
                push_str_chars(&mut cond, item.host.as_str());
                push_str_chars(&mut cond, "'");
                first = false;
                proof {
                    assert(cond@ =~= joined(bl.take(i as int + 1), bypass_render(), " || "@));
                }
            }
            i = i + 1;
        }
        proof {
            assert(bl.take(n as int) =~= bl);
        }
        if first {
            push_str_chars(buf, "false");
        } else {
            let mut k: usize = 0;
            while k < cond.len()
                invariant
                    k <= cond@.len(),
                    cond@ == joined(bl, bypass_render(), " || "@),
                    any_rendered(bl, bypass_render()),
                    buf@ == old(buf)@ + cond@.take(k as int),
                decreases cond@.len() - k,
            {
                buf.push(cond[k]);
                k = k + 1;
                proof {
                    assert(buf@ =~= old(buf)@ + cond@.take(k as int));
                }
            }
            proof {
                assert(cond@.take(cond@.len() as int) =~= cond@);
            }
        }
    }

    /// Appends the proxy-rules block to `buf`.
    fn push_rules(&self, buf: &mut Vec<char>)
        ensures
            final(buf)@ == old(buf)@ + rules_text(self@.proxy_rules),
    {
        let ghost rs = self@.proxy_rules;
        let n = self.proxy_rules.len();
        let mut i: usize = 0;
        let mut first = true;
        while i < n
            invariant
                n == rs.len(),
                rs == self@.proxy_rules,
                i <= n,
                first == !any_rendered(rs.take(i as int), rule_render()),
                buf@ == old(buf)@ + joined(rs.take(i as int), rule_render(), "\n    "@),
            decreases n - i,
        {
            proof {
                assert(rs.take(i as int + 1).drop_last() =~= rs.take(i as int));
                assert(rs.take(i as int + 1).last() == rs[i as int]);
            }
            let item = &self.proxy_rules[i];
            proof {
                assert(rs[i as int] == self.proxy_rules@[i as int]@);
                if rs[i as int].enabled {
                    assert(rule_render()(rs[i as int]) is Some);
                } else {
                    assert(rule_render()(rs[i as int]) is None);
                }
            }
            if item.enabled {
                proof {
                    if first {
                        lemma_joined_none_empty(rs.take(i as int), rule_render(), "\n    "@);
                    }
                }
                if !first {
                    push_str_chars(buf, "\n    ");
                }
                if str_eq(item.rule.host.as_str(), "*") {
                    push_str_chars(buf, "return '");
                    push_proxy_directive(buf, item.rule.proxy_host.as_str(), item.rule.proxy_port);
                    push_str_chars(buf, "';");
                    proof {
                        assert(rule_render()(rs[i as int]) == Some(
                            "return '"@ + proxy_directive(rs[i as int].rule) + "';"@,
                        ));
                    }
                } else {
                    push_str_chars(buf, "if (host == '");
                    push_str_chars(buf, item.rule.host.as_str());
                    push_str_chars(buf, "') return '");
                    push_proxy_directive(buf, item.rule.proxy_host.as_str(), item.rule.proxy_port);
                    push_str_chars(buf, "';");
                    proof {
                        assert(rule_render()(rs[i as int]) == Some(
                            "if (host == '"@ + rs[i as int].rule.host + "') return '"@
                                + proxy_directive(rs[i as int].rule) + "';"@,
                        ));
                    }
                }
                first = false;
                proof {
                    assert(buf@ =~= old(buf)@ + joined(
                        rs.take(i as int + 1),
                        rule_render(),
                        "\n    "@,
                    ));
                }
            }
            i = i + 1;
        }
        proof {
            assert(rs.take(n as int) =~= rs);
        }
    }
}

/// Renders the document into the PAC script that is served to clients.
pub fn generate_pac_content(config: &PacConfig) -> (r: String)
    ensures
        r@ == pac_text(config@),
{
    let mut buf: Vec<char> = Vec::new();
    push_str_chars(
        &mut buf,
        "\nfunction FindProxyForURL(url, host) {\n\n    function isEmptyStringSafe(str) {\n        // Handle null/undefined\n        if (str == null) return true;\n        // Handle non-string types\n        if (typeof str !== 'string') return true;\n        return str.length === 0;\n    }\n\n    // All external PAC functions first\n    ",
    );
    config.push_external_bodies(&mut buf);
    push_str_chars(
        &mut buf,
        "\n    \n    // Bypass list - URLs matching these patterns will bypass the proxy\n    if (",
    );
    config.push_bypass_condition(&mut buf);
    push_str_chars(
        &mut buf,
        ") {\n        return \"DIRECT\";\n    }\n    \n    // Try external PAC functions\n    ",
    );
    config.push_external_calls(&mut buf);
    push_str_chars(&mut buf, "\n\n    // Proxy rules - check each rule against the host\n    ");
    config.push_rules(&mut buf);
    push_str_chars(
        &mut buf,
        "\n    \n    // Default to direct connection if no rules match\n    return \"DIRECT\";\n}",
    );
    proof {
        assert(buf@ =~= pac_text(config@));
    }
    string_from_chars(&buf)
}

/// Whether the generated bypass check fires for `host`: some enabled bypass
/// entry names exactly that host.
pub open spec fn bypass_matches(bl: Seq<BypassListItemView>, host: Seq<char>) -> bool {
    exists|i: int| 0 <= i < bl.len() && (#[trigger] bl[i]).enabled && bl[i].host == host
}

/// The directive of the first enabled proxy rule that matches `host`, in
/// document order: a catch-all rule matches every host.
pub open spec fn first_rule_directive(rules: Seq<ProxyRuleItemView>, host: Seq<char>) -> Option<
    Seq<char>,
>
    decreases rules.len(),
{
    if rules.len() == 0 {
        None
    } else if rules[0].enabled && (rules[0].rule.host == "*"@ || rules[0].rule.host == host) {
        Some(proxy_directive(rules[0].rule))
    } else {
        first_rule_directive(rules.skip(1), host)
    }
}

/// What the generated script returns for `host` when no external function is
/// enabled: `DIRECT` for a bypassed host, the directive of the first matching
/// enabled rule otherwise, and `DIRECT` when no rule matches.  This mirrors
/// the control flow that the generator emits: the bypass check, then the
/// proxy-rules block, then the final return.
pub open spec fn pac_decision(d: PacConfigView, host: Seq<char>) -> Seq<char> {
    if bypass_matches(d.bypass_list, host) {
        "DIRECT"@
    } else {
        match first_rule_directive(d.proxy_rules, host) {
            Some(directive) => directive,
            None => "DIRECT"@,
        }
    }
}

/// With no enabled rule, no rule fires.
proof fn lemma_no_enabled_rule_no_directive(rules: Seq<ProxyRuleItemView>, host: Seq<char>)
    requires
        forall|i: int| 0 <= i < rules.len() ==> !(#[trigger] rules[i]).enabled,
    ensures
        first_rule_directive(rules, host) is None,
    decreases rules.len(),
{
    if rules.len() > 0 {
        lemma_no_enabled_rule_no_directive(rules.skip(1), host);
    }
}

/// With every proxy rule disabled and no external function enabled, the
/// generated PAC returns `DIRECT` for every pair of URL and host — for hosts
/// outside the bypass list by the final return, for bypassed hosts by the
/// bypass check.
pub proof fn lemma_all_disabled_gives_direct(d: PacConfigView, host: Seq<char>)
    requires
        forall|i: int| 0 <= i < d.proxy_rules.len() ==> !(#[trigger] d.proxy_rules[i]).enabled,
    ensures
        pac_decision(d, host) == "DIRECT"@,
{
    lemma_no_enabled_rule_no_directive(d.proxy_rules, host);
}

/// An enabled catch-all rule at the head of the list decides every host that
/// the bypass list does not capture.
pub proof fn lemma_catch_all_rule(d: PacConfigView, host: Seq<char>)
    requires
        d.proxy_rules.len() >= 1,
        d.proxy_rules[0].enabled,
        d.proxy_rules[0].rule.host == "*"@,
        !bypass_matches(d.bypass_list, host),
    ensures
        pac_decision(d, host) == proxy_directive(d.proxy_rules[0].rule),
{
}

} // verus!
