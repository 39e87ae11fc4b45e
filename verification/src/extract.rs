//! The external-PAC rewrite pipeline: derive a collision-free symbol from a
//! source URL, locate the `FindProxyForURL` function in fetched script text
//! by brace matching, rename it, and fold the result into the document.
//!
//! Fetching itself is plain network I/O and happens outside the library; the
//! functions here take the fetched text as a value.

use vstd::prelude::*;
use crate::errors::ProxyCatError;
use crate::pac::{
    ExternalPacFunction, ExternalPacFunctionItem, ExternalPacFunctionItemView,
    ExternalPacFunctionView, PacConfig, PacConfigView, has_default_bypass, is_symbol_name, wf,
};
use crate::strutil::{chars_of, push_str_chars, str_eq, string_from_chars};

verus! {

/// An ASCII letter, digit or underscore.
pub open spec fn is_word_char(c: char) -> bool {
    ||| 48 <= c as u32 <= 57
    ||| 65 <= c as u32 <= 90
    ||| 97 <= c as u32 <= 122
    ||| c == '_'
}

/// An ASCII letter or digit.
pub open spec fn is_ascii_alnum(c: char) -> bool {
    ||| 48 <= c as u32 <= 57
    ||| 65 <= c as u32 <= 90
    ||| 97 <= c as u32 <= 122
}

/// `c` if it is an ASCII letter or digit, `_` otherwise.
pub open spec fn sanitize_char(c: char) -> char {
    if is_ascii_alnum(c) {
        c
    } else {
        '_'
    }
}

/// The sanitized form of a URL: every character that is not an ASCII letter
/// or digit becomes an underscore.
pub open spec fn spec_sanitize(s: Seq<char>) -> Seq<char> {
    s.map_values(|c: char| sanitize_char(c))
}

/// Sanitizing keeps the length and yields only word characters, and the
/// result depends on the input alone.
pub proof fn lemma_sanitize_word_chars(s: Seq<char>)
    ensures
        spec_sanitize(s).len() == s.len(),
        forall|i: int| 0 <= i < s.len() ==> is_word_char(#[trigger] spec_sanitize(s)[i]),
{
}

/// Sanitizes a URL for use inside a JavaScript identifier.
pub fn sanitize_url(url: &str) -> (r: String)
    ensures
        r@ == spec_sanitize(url@),
{
    let cs = chars_of(url);
    let mut out: Vec<char> = Vec::new();
    let mut i: usize = 0;
    while i < cs.len()
        invariant
            i <= cs@.len(),
            cs@ == url@,
            out@ == spec_sanitize(url@.take(i as int)),
        decreases cs@.len() - i,
    {
        let c = cs[i];
        let code = c as u32;
        if (48 <= code && code <= 57) || (65 <= code && code <= 90) || (97 <= code && code <= 122) {
            out.push(c);
            proof {
                assert(is_ascii_alnum(c));
            }
        } else {
            out.push('_');
            proof {
                assert(!is_ascii_alnum(c));
            }
        }
        i = i + 1;
        proof {
            assert(out@.last() == sanitize_char(url@[i - 1]));
            assert(out@ =~= spec_sanitize(url@.take(i as int)));
        }
    }
    proof {
        assert(url@.take(url@.len() as int) =~= url@);
    }
    string_from_chars(&out)
}

/// The symbol that an external function fetched from `url` is renamed to.
pub open spec fn spec_symbol_for(url: Seq<char>) -> Seq<char> {
    "FindProxyForURL_"@ + spec_sanitize(url)
}

/// The symbol derived from a nonempty URL is a well-formed symbol name.
pub proof fn lemma_symbol_for_wf(url: Seq<char>)
    requires
        url.len() >= 1,
    ensures
        is_symbol_name(spec_symbol_for(url)),
{
    let sym = spec_symbol_for(url);
    let p = "FindProxyForURL_"@;
    lemma_sanitize_word_chars(url);
    assert(sym.take(p.len() as int) =~= p);
    assert forall|i: int| p.len() <= i < sym.len() implies is_word_char(#[trigger] sym[i]) by {
        assert(sym[i] == spec_sanitize(url)[i - p.len()]);
    }
}

/// Derives the symbol name for the function fetched from `url`.
pub fn symbol_for_url(url: &str) -> (r: String)
    ensures
        r@ == spec_symbol_for(url@),
{
    let mut out: Vec<char> = Vec::new();
    push_str_chars(&mut out, "FindProxyForURL_");
    let sanitized = sanitize_url(url);
    push_str_chars(&mut out, sanitized.as_str());
    string_from_chars(&out)
}

/// The literal that extraction scans for.
pub open spec fn find_pattern() -> Seq<char> {
    "function FindProxyForURL"@
}

/// Whether the pattern occurs in `s` at position `i`.
pub open spec fn match_at(s: Seq<char>, i: int) -> bool {
    &&& 0 <= i
    &&& i + find_pattern().len() <= s.len()
    &&& s.subrange(i, i + find_pattern().len() as int) == find_pattern()
}

/// The first position at or after `i` where the pattern occurs, if any.
pub open spec fn first_match_from(s: Seq<char>, i: int) -> Option<int>
    decreases s.len() - i,
    when 0 <= i <= s.len()
{
    if i + find_pattern().len() > s.len() {
        None
    } else if match_at(s, i) {
        Some(i)
    } else if i < s.len() {
        first_match_from(s, i + 1)
    } else {
        None
    }
}

/// The brace scan: starting at `i` with open-brace
/// excess `count`, `in_fn` recording whether a brace has been seen, the
/// position one past the `}` that first returns the depth to zero.
pub open spec fn brace_scan(s: Seq<char>, i: int, count: int, in_fn: bool) -> Option<int>
    decreases s.len() - i,
    when 0 <= i <= s.len()
{
    if i >= s.len() {
        None
    } else if s[i] == '{' {
        brace_scan(s, i + 1, count + 1, true)
    } else if s[i] == '}' {
        if in_fn && count == 1 {
            Some(i + 1)
        } else {
            brace_scan(s, i + 1, count - 1, in_fn)
        }
    } else {
        brace_scan(s, i + 1, count, in_fn)
    }
}

/// The region `[start, end)` of `s` holding the `FindProxyForURL` function:
/// from the first occurrence of the pattern to the first `}` that closes the
/// braces opened since.
pub open spec fn spec_find_region(s: Seq<char>) -> Option<(int, int)> {
    match first_match_from(s, 0) {
        None => None,
        Some(st) => match brace_scan(s, st, 0, false) {
            None => None,
            Some(e) => Some((st, e)),
        },
    }
}

/// A successful brace scan ends after its start and within the text.
proof fn lemma_brace_scan_bounds(s: Seq<char>, i: int, count: int, in_fn: bool)
    requires
        0 <= i <= s.len(),
    ensures
        match brace_scan(s, i, count, in_fn) {
            Some(e) => i < e <= s.len(),
            None => true,
        },
    decreases s.len() - i,
{
    if i >= s.len() {
    } else if s[i] == '{' {
        lemma_brace_scan_bounds(s, i + 1, count + 1, true);
    } else if s[i] == '}' {
        if !(in_fn && count == 1) {
            lemma_brace_scan_bounds(s, i + 1, count - 1, in_fn);
        }
    } else {
        lemma_brace_scan_bounds(s, i + 1, count, in_fn);
    }
}

/// Characters that are not braces do not change the scan state.
proof fn lemma_brace_scan_skip(s: Seq<char>, i: int, k: int, count: int, in_fn: bool)
    requires
        0 <= i,
        0 <= k,
        i + k <= s.len(),
        forall|j: int| i <= j < i + k ==> s[j] != '{' && s[j] != '}',
    ensures
        brace_scan(s, i, count, in_fn) == brace_scan(s, i + k, count, in_fn),
    decreases k,
{
    if k > 0 {
        lemma_brace_scan_skip(s, i + 1, k - 1, count, in_fn);
    }
}

/// The scanned pattern contains no braces.
proof fn lemma_pattern_has_no_braces()
    ensures
        find_pattern().len() == 24,
        forall|j: int|
            0 <= j < find_pattern().len() ==> #[trigger] find_pattern()[j] != '{'
                && find_pattern()[j] != '}',
{
    reveal_strlit("function FindProxyForURL");
}

/// In a found region, the function body extends past the pattern and ends
/// within the text.
pub proof fn lemma_region_shape(s: Seq<char>)
    ensures
        match spec_find_region(s) {
            Some((st, e)) => {
                &&& match_at(s, st)
                &&& st + find_pattern().len() <= e <= s.len()
            },
            None => true,
        },
{
    match first_match_from(s, 0) {
        None => {},
        Some(st) => {
            lemma_first_match_is_match(s, 0);
            match brace_scan(s, st, 0, false) {
                None => {},
                Some(e) => {
                    let plen = find_pattern().len() as int;
                    lemma_pattern_has_no_braces();
                    assert forall|j: int| st <= j < st + plen implies s[j] != '{' && s[j] != '}' by {
                        assert(s[j] == s.subrange(st, st + plen)[j - st]);
                        assert(s.subrange(st, st + plen)[j - st] == find_pattern()[j - st]);
                    }
                    lemma_brace_scan_skip(s, st, plen, 0, false);
                    lemma_brace_scan_bounds(s, st + plen, 0, false);
                },
            }
        },
    }
}

/// What `first_match_from` returns is a match position.
proof fn lemma_first_match_is_match(s: Seq<char>, i: int)
    requires
        0 <= i <= s.len(),
    ensures
        match first_match_from(s, i) {
            Some(st) => match_at(s, st) && i <= st,
            None => true,
        },
    decreases s.len() - i,
{
    if i + find_pattern().len() > s.len() {
    } else if match_at(s, i) {
    } else if i < s.len() {
        lemma_first_match_is_match(s, i + 1);
    }
}

/// Whether the pattern occurs in `s` at position `i`, decided by comparing
/// characters.
fn matches_at(s: &Vec<char>, pat: &Vec<char>, i: usize) -> (r: bool)
    requires
        i + pat@.len() <= s@.len(),
        pat@ == find_pattern(),
    ensures
        r == match_at(s@, i as int),
{
    let slen = s.len();
    let plen = pat.len();
    let mut j: usize = 0;
    while j < plen
        invariant
            j <= plen,
            plen == pat@.len(),
            slen == s@.len(),
            i + pat@.len() <= s@.len(),
            pat@ == find_pattern(),
            forall|k: int| 0 <= k < j ==> s@[i + k] == pat@[k],
        decreases plen - j,
    {
        if s[i + j] != pat[j] {
            proof {
                let sub = s@.subrange(i as int, i as int + pat@.len() as int);
                assert(sub[j as int] == s@[i + j]);
                assert(sub != pat@);
            }
            return false;
        }
        j = j + 1;
    }
    proof {
        assert(s@.subrange(i as int, i as int + pat@.len() as int) =~= pat@);
    }
    true
}

/// Locates the `FindProxyForURL` function in `content`: the first occurrence
/// of the pattern, and the position one past the `}` that first closes the
/// braces opened since.  Returns `None` when no such region exists.
pub fn find_proxy_function(content: &Vec<char>) -> (r: Option<(usize, usize)>)
    ensures
        match r {
            Some((st, e)) => spec_find_region(content@) == Some((st as int, e as int)),
            None => spec_find_region(content@) is None,
        },
{
    let pat = chars_of("function FindProxyForURL");
    let slen = content.len();
    let plen = pat.len();
    proof {
        lemma_pattern_has_no_braces();
    }
    if slen < plen {
        proof {
            assert(first_match_from(content@, 0) is None);
        }
        return None;
    }
    let mut i: usize = 0;
    let mut start: usize = 0;
    let mut found = false;
    while i <= slen - plen && !found
        invariant
            pat@ == find_pattern(),
            slen == content@.len(),
            plen == pat@.len(),
            plen <= slen,
            plen >= 1,
            i <= content@.len(),
            first_match_from(content@, 0) == first_match_from(content@, i as int),
            found ==> first_match_from(content@, i as int) == Some(i as int) && start == i,
        decreases content@.len() - i + (if found { 0int } else { 1int }),
    {
        if matches_at(content, &pat, i) {
            start = i;
            found = true;
        } else {
            i = i + 1;
        }
    }
    if !found {
        proof {
            assert(i + find_pattern().len() > content@.len());
            assert(first_match_from(content@, i as int) is None);
        }
        return None;
    }
    // Brace scan from the start of the match.
    let mut j: usize = start;
    let mut count: i128 = 0;
    let mut in_fn = false;
    while j < slen
        invariant
            slen == content@.len(),
            start <= j <= content@.len(),
            first_match_from(content@, 0) == Some(start as int),
            brace_scan(content@, start as int, 0, false) == brace_scan(content@, j as int, count as int, in_fn),
            -((j - start) as int) <= count as int <= (j - start) as int,
        decreases content@.len() - j,
    {
        let c = content[j];
        if c == '{' {
            count = count + 1;
            in_fn = true;
        } else if c == '}' {
            if in_fn && count == 1 {
                let e = j + 1;
                proof {
                    assert(brace_scan(content@, j as int, count as int, in_fn) == Some(j as int + 1));
                    assert(brace_scan(content@, start as int, 0, false) == Some(j as int + 1));
                    assert(spec_find_region(content@) == Some((start as int, e as int)));
                }
                return Some((start, e));
            }
            count = count - 1;
        }
        j = j + 1;
    }
    proof {
        assert(brace_scan(content@, j as int, count as int, in_fn) is None);
    }
    None
}

/// The rewritten function text: the extracted region with its leading
/// `function FindProxyForURL` replaced by `function ` and the new symbol.
pub open spec fn spec_rewritten(s: Seq<char>, symbol: Seq<char>, st: int, e: int) -> Seq<char> {
    "function "@ + symbol + s.subrange(st + find_pattern().len() as int, e)
}

/// Whether the document already holds an external function named `name`.
pub open spec fn has_symbol(d: PacConfigView, name: Seq<char>) -> bool {
    exists|i: int|
        0 <= i < d.external_pac_functions.len() && (
        #[trigger] d.external_pac_functions[i]).function.function_name == name
}

/// The external-function item built from `url` and the region of `content`.
pub open spec fn ingested_item(url: Seq<char>, content: Seq<char>, st: int, e: int)
    -> ExternalPacFunctionItemView {
    ExternalPacFunctionItemView {
        function: ExternalPacFunctionView {
            original_url: url,
            function_name: spec_symbol_for(url),
            function_text: spec_rewritten(content, spec_symbol_for(url), st, e),
        },
        enabled: true,
    }
}

/// The document after ingesting the text fetched from `url`: unchanged when
/// the URL is empty, no function region is found, or the derived symbol is
/// already present; otherwise the new item is appended, enabled.
pub open spec fn ingested_doc(d: PacConfigView, url: Seq<char>, content: Seq<char>)
    -> PacConfigView {
    if url.len() == 0 {
        d
    } else {
        match spec_find_region(content) {
            None => d,
            Some((st, e)) => if has_symbol(d, spec_symbol_for(url)) {
                d
            } else {
                PacConfigView {
                    external_pac_functions: d.external_pac_functions.push(
                        ingested_item(url, content, st, e),
                    ),
                    ..d
                }
            },
        }
    }
}

impl PacConfig {
    /// Whether an external function named `name` is already present.
    fn has_function_named(&self, name: &str) -> (r: bool)
        ensures
            r == has_symbol(self@, name@),
    {
        let n = self.external_pac_functions.len();
        let mut i: usize = 0;
        while i < n
            invariant
                n == self@.external_pac_functions.len(),
                i <= n,
                forall|j: int|
                    0 <= j < i ==> (#[trigger] self@.external_pac_functions[j]).function.function_name
                        != name@,
            decreases n - i,
        {
            if str_eq(self.external_pac_functions[i].function.function_name.as_str(), name) {
                proof {
                    assert((self@.external_pac_functions[i as int]).function.function_name
                        == name@);
                }
                return true;
            }
            i = i + 1;
        }
        false
    }

    /// Ingests the PAC script text fetched from `url`: locates the
    /// `FindProxyForURL` function, renames it to the symbol derived from the
    /// URL, and appends it as an enabled external function.  Returns
    /// `Ok(true)` when the item was added, `Ok(false)` when a function with
    /// the same symbol was already present (the document is unchanged), and
    /// an error when the URL is empty or no function region exists (the
    /// document is unchanged).
    pub fn ingest_external_pac(&mut self, url: &str, content: &str) -> (r: Result<
        bool,
        ProxyCatError,
    >)
        ensures
            final(self)@ == ingested_doc(old(self)@, url@, content@),
            wf(old(self)@) ==> wf(final(self)@),
            has_default_bypass(old(self)@) ==> has_default_bypass(final(self)@),
            match r {
                Ok(true) => url@.len() >= 1 && spec_find_region(content@) is Some && !has_symbol(
                    old(self)@,
                    spec_symbol_for(url@),
                ),
                Ok(false) => url@.len() >= 1 && spec_find_region(content@) is Some && has_symbol(
                    old(self)@,
                    spec_symbol_for(url@),
                ),
                Err(e) => (url@.len() == 0 || spec_find_region(content@) is None) && e is Pac,
            },
    {
        if url.is_empty() {
            return Err(ProxyCatError::Pac("empty source URL".to_owned()));
        }
        let cs = chars_of(content);
        match find_proxy_function(&cs) {
            None => Err(
                ProxyCatError::Pac("no FindProxyForURL function found in the PAC file".to_owned()),
            ),
            Some((st, e)) => {
                let symbol = symbol_for_url(url);
                if self.has_function_named(symbol.as_str()) {
                    return Ok(false);
                }
                proof {
                    lemma_region_shape(cs@);
                }
                let mut body: Vec<char> = Vec::new();
                push_str_chars(&mut body, "function ");
                push_str_chars(&mut body, symbol.as_str());
                let pat_len: usize = 24;
                proof {
                    reveal_strlit("function FindProxyForURL");
                }
                let mut k: usize = st + pat_len;
                while k < e
                    invariant
                        st + find_pattern().len() <= k <= e <= cs@.len(),
                        cs@ == content@,
                        symbol@ == spec_symbol_for(url@),
                        body@ == "function "@ + symbol@ + cs@.subrange(
                            st + find_pattern().len() as int,
                            k as int,
                        ),
                    decreases e - k,
                {
                    body.push(cs[k]);
                    k = k + 1;
                    proof {
                        assert(body@ =~= "function "@ + symbol@ + cs@.subrange(
                            st + find_pattern().len() as int,
                            k as int,
                        ));
                    }
                }
                let function_text = string_from_chars(&body);
                let ghost pre = self@;
                self.external_pac_functions.push_back(
                    ExternalPacFunctionItem {
                        function: ExternalPacFunction {
                            original_url: url.to_owned(),
                            function_name: symbol,
                            function_text,
                        },
                        enabled: true,
                    },
                );
                proof {
                    assert(self@ =~~= ingested_doc(pre, url@, content@));
                    if wf(pre) {
                        lemma_symbol_for_wf(url@);
                        assert(wf(self@));
                    }
                    if has_default_bypass(pre) {
                        assert(self@.bypass_list == pre.bypass_list);
                        lemma_default_bypass_same(pre, self@);
                    }
                }
                Ok(true)
            },
        }
    }
}

/// Two documents with the same bypass list agree on the default entries.
proof fn lemma_default_bypass_same(a: PacConfigView, b: PacConfigView)
    requires
        has_default_bypass(a),
        a.bypass_list == b.bypass_list,
    ensures
        has_default_bypass(b),
{
    let i1 = choose|i: int|
        0 <= i < a.bypass_list.len() && (#[trigger] a.bypass_list[i]).host == "localhost"@;
    assert(b.bypass_list[i1].host == "localhost"@);
    let i2 = choose|i: int|
        0 <= i < a.bypass_list.len() && (#[trigger] a.bypass_list[i]).host == "127.0.0.1"@;
    assert(b.bypass_list[i2].host == "127.0.0.1"@);
    let i3 = choose|i: int|
        0 <= i < a.bypass_list.len() && (#[trigger] a.bypass_list[i]).host == "::1"@;
    assert(b.bypass_list[i3].host == "::1"@);
}

/// Ingesting the same URL a second time leaves the document unchanged,
/// whatever text the second fetch returned.
pub proof fn lemma_ingest_idempotent(
    d: PacConfigView,
    url: Seq<char>,
    c1: Seq<char>,
    c2: Seq<char>,
)
    requires
        url.len() >= 1,
        spec_find_region(c1) is Some,
    ensures
        ingested_doc(ingested_doc(d, url, c1), url, c2) == ingested_doc(d, url, c1),
{
    let d1 = ingested_doc(d, url, c1);
    assert(has_symbol(d1, spec_symbol_for(url))) by {
        if has_symbol(d, spec_symbol_for(url)) {
            let i = choose|i: int|
                0 <= i < d.external_pac_functions.len() && (
                #[trigger] d.external_pac_functions[i]).function.function_name == spec_symbol_for(
                    url,
                );
            assert(d1.external_pac_functions[i].function.function_name == spec_symbol_for(url));
        } else {
            let n = d.external_pac_functions.len() as int;
            assert(d1.external_pac_functions[n].function.function_name == spec_symbol_for(url));
        }
    }
}

} // verus!
