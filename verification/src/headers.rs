//! The security-header mutator: splices a per-response nonce into the
//! configured Content-Security-Policy directives and into the opening HTML
//! tags of eligible response bodies, and carries the additional static
//! security headers.

use crate::config::{Config, CustomAppConfig, CustomAppHttpHeadersConfig};
use crate::text::{
    chars_to_string, inject_chars, inject_spec, is_prefix, lacks, lemma_inject_idempotent,
    push_all, replace_chars, replace_spec, str_to_chars, str_views, views_of, wf_open,
};
use vstd::prelude::*;

use base64::Engine;
use rand::Rng;

verus! {

#[verifier::external_type_specification]
#[verifier::external_body]
pub struct ExRegexSet(regex::RegexSet);

/// Whether any of the patterns, compiled as regular expressions, matches the
/// text; decided by the regex crate, a function of patterns and text alone.
pub uninterp spec fn regex_set_match(patterns: Seq<Seq<char>>, text: Seq<char>) -> bool;

/// Whether every one of the pattern texts compiles as a regular expression;
/// decided by the regex compiler, a function of the texts alone.
pub uninterp spec fn regex_patterns_compile(patterns: Seq<Seq<char>>) -> bool;

/// A set of path patterns refused by the regex compiler.
#[derive(Debug)]
pub struct RegexBuildError;

/// A compiled set of path patterns, kept together with the pattern texts it
/// was compiled from; the fields are private so the pairing cannot be
/// broken.
pub struct RegexPaths {
    patterns: Vec<String>,
    set: regex::RegexSet,
}

impl RegexPaths {
    /// The pattern texts the set was compiled from.
    pub closed spec fn patterns_view(&self) -> Seq<Seq<char>> {
        str_views(self.patterns@)
    }

    /// Relies on regex::RegexSet::new: compiles exactly the given patterns,
    /// succeeding precisely when every pattern text compiles — a function
    /// of the texts alone.
    #[verifier::external_body]
    pub fn new(patterns: &Vec<String>) -> (r: Result<RegexPaths, RegexBuildError>)
        ensures
            (r is Ok) == regex_patterns_compile(str_views(patterns@)),
            r matches Ok(rp) ==> rp.patterns_view() == str_views(patterns@),
    {
        match regex::RegexSet::new(patterns) {
            Ok(set) => Ok(RegexPaths { patterns: patterns.clone(), set }),
            Err(_) => Err(RegexBuildError),
        }
    }

    /// Relies on regex::RegexSet::is_match: whether any pattern of the set
    /// matches the text. The set held here is always the one compiled from
    /// `patterns`, so the answer is a function of the pattern texts.
    #[verifier::external_body]
    pub fn is_match(&self, text: &str) -> (r: bool)
        ensures
            r == regex_set_match(self.patterns_view(), text@),
    {
        self.set.is_match(text)
    }

    /// How many patterns the set holds.
    pub fn len(&self) -> (r: usize)
        ensures
            r == self.patterns_view().len(),
    {
        self.patterns.len()
    }
}

/// Relies on rand::rng and fill_bytes: yields 64 bytes of cryptographic
/// randomness; nothing is promised of their values.
#[verifier::external_body]
fn random_bytes_64() -> (r: Vec<u8>)
    ensures
        r@.len() == 64,
{
    let mut buf = [0u8; 64];
    rand::rng().fill_bytes(&mut buf);
    buf.to_vec()
}

/// What the standard base64 encoding of the bytes is; a function of the
/// bytes alone.
pub uninterp spec fn base64_chars(bytes: Seq<u8>) -> Seq<char>;

/// A character of the padded standard base64 alphabet.
pub open spec fn is_base64_char(c: char) -> bool {
    ||| 65 <= c as u32 <= 90
    ||| 97 <= c as u32 <= 122
    ||| 48 <= c as u32 <= 57
    ||| c == '+'
    ||| c == '/'
    ||| c == '='
}

/// Relies on base64's standard engine (Engine::encode with BASE64_STANDARD):
/// the output depends on the bytes alone, is drawn from the padded standard
/// alphabet, and holds four characters for every started group of three
/// bytes.
#[verifier::external_body]
fn base64_encode(bytes: &Vec<u8>) -> (r: String)
    ensures
        r@ == base64_chars(bytes@),
        forall|i: int| 0 <= i < r@.len() ==> is_base64_char(#[trigger] r@[i]),
        r@.len() == 4 * ((bytes@.len() + 2) / 3),
{
    base64::prelude::BASE64_STANDARD.encode(bytes)
}

/// Text drawn entirely from the base64 alphabet, as every generated nonce
/// is.
pub open spec fn nonce_text(s: Seq<char>) -> bool {
    forall|i: int| 0 <= i < s.len() ==> is_base64_char(#[trigger] s[i])
}

/// Base64 text contains neither '<' nor '"' nor a space.
pub proof fn lemma_nonce_text_clean(s: Seq<char>)
    requires
        nonce_text(s),
    ensures
        lacks(s, '<'),
        lacks(s, '"'),
        lacks(s, ' '),
{
    assert forall|i: int| 0 <= i < s.len() implies s[i] != '<' && s[i] != '"' && s[i]
        != ' ' by {
        assert(is_base64_char(s[i]));
    }
}

/// A fresh nonce: 64 random bytes, base64-encoded.
pub fn generate_nonce() -> (r: String)
    ensures
        nonce_text(r@),
        r@.len() == 88,
{
    let bytes = random_bytes_64();
    base64_encode(&bytes)
}

/// The attribute text probed for after an opening tag.
pub open spec fn nonce_probe() -> Seq<char> {
    seq![' ', 'n', 'o', 'n', 'c', 'e', '=', '"']
}

/// The attribute text inserted after an opening tag.
pub open spec fn nonce_attr_body(nonce: Seq<char>) -> Seq<char> {
    nonce_probe() + nonce + seq!['"']
}

/// The text appended to a CSP directive name.
pub open spec fn nonce_attr_csp(nonce: Seq<char>) -> Seq<char> {
    seq![' ', '\'', 'n', 'o', 'n', 'c', 'e', '-'] + nonce + seq!['\'']
}

/// The opening-tag pattern of each tag name.
pub open spec fn opens_of(tags: Seq<Seq<char>>) -> Seq<Seq<char>> {
    tags.map_values(|t: Seq<char>| seq!['<'] + t)
}

/// The body after nonce injection: after each scanned opening of a
/// configured tag that does not already carry a nonce attribute, one is
/// inserted.
pub open spec fn inject_tags_spec(body: Seq<char>, tags: Seq<Seq<char>>, nonce: Seq<char>) -> Seq<
    char,
> {
    inject_spec(body, opens_of(tags), nonce_probe(), nonce_attr_body(nonce))
}

/// The CSP template after each directive name of `dirs`, scanned in order,
/// has the nonce spliced onto each of its occurrences.
pub open spec fn splice_dirs(cur: Seq<char>, dirs: Seq<Seq<char>>, nonce: Seq<char>) -> Seq<char>
    decreases dirs.len(),
{
    if dirs.len() == 0 {
        cur
    } else {
        splice_dirs(
            replace_spec(cur, dirs[0], dirs[0] + nonce_attr_csp(nonce)),
            dirs.skip(1),
            nonce,
        )
    }
}

/// A tag name fit for injection: no '<' and no space.
pub open spec fn tag_text(t: Seq<char>) -> bool {
    forall|i: int| 0 <= i < t.len() ==> t[i] != '<' && t[i] != ' '
}

/// All tag names are fit for injection.
pub open spec fn tags_text(tags: Seq<Seq<char>>) -> bool {
    forall|k: int| 0 <= k < tags.len() ==> tag_text(#[trigger] tags[k])
}

/// Splices the nonce onto every occurrence of each configured directive
/// name in the CSP template, directive list order first.
pub fn splice_csp_directives(csp: &String, dirs: &Vec<String>, nonce: &String) -> (r: String)
    ensures
        r@ == splice_dirs(csp@, str_views(dirs@), nonce@),
{
    let ghost all = str_views(dirs@);
    let mut cur = str_to_chars(csp.as_str());
    let nonce_chars = str_to_chars(nonce.as_str());
    let mut i: usize = 0;
    proof {
        assert(all.skip(0) =~= all);
    }
    while i < dirs.len()
        invariant
            i <= all.len(),
            all == str_views(dirs@),
            nonce_chars@ == nonce@,
            splice_dirs(cur@, all.skip(i as int), nonce@) == splice_dirs(csp@, all, nonce@),
        decreases all.len() - i,
    {
        let ghost t = all.skip(i as int);
        let dchars = str_to_chars(dirs[i].as_str());
        let mut attr: Vec<char> = Vec::new();
        attr.push(' ');
        attr.push('\'');
        attr.push('n');
        attr.push('o');
        attr.push('n');
        attr.push('c');
        attr.push('e');
        attr.push('-');
        proof {
            assert(attr@ =~= seq![' ', '\'', 'n', 'o', 'n', 'c', 'e', '-']);
        }
        let mut sub: Vec<char> = Vec::new();
        push_all(&mut sub, &dchars);
        push_all(&mut sub, &attr);
        push_all(&mut sub, &nonce_chars);
        sub.push('\'');
        proof {
            assert(t[0] == all[i as int]);
            assert(all[i as int] == dirs@[i as int]@);
            assert(t.skip(1) =~= all.skip(i + 1));
            assert(sub@ =~= dchars@ + nonce_attr_csp(nonce@));
        }
        cur = replace_chars(&cur, &dchars, &sub);
        i = i + 1;
    }
    proof {
        assert(all.skip(all.len() as int).len() == 0);
    }
    chars_to_string(&cur)
}

/// Rewrites the body: after each scanned opening of a configured tag that
/// does not already carry a nonce attribute, inserts one with this nonce.
pub fn inject_nonce_tags(body: &String, tags: &Vec<String>, nonce: &String) -> (r: String)
    ensures
        r@ == inject_tags_spec(body@, str_views(tags@), nonce@),
{
    let bodychars = str_to_chars(body.as_str());
    let nonce_chars = str_to_chars(nonce.as_str());
    let mut pats: Vec<Vec<char>> = Vec::new();
    let mut i: usize = 0;
    while i < tags.len()
        invariant
            i <= tags@.len(),
            views_of(pats@) == opens_of(str_views(tags@)).take(i as int),
        decreases tags@.len() - i,
    {
        let tchars = str_to_chars(tags[i].as_str());
        let mut o: Vec<char> = Vec::new();
        o.push('<');
        push_all(&mut o, &tchars);
        proof {
            assert(o@ =~= seq!['<'] + tags@[i as int]@);
            assert(opens_of(str_views(tags@))[i as int] == seq!['<'] + str_views(tags@)[i as int]);
            assert(str_views(tags@)[i as int] == tags@[i as int]@);
            assert(views_of(pats@.push(o)) =~= views_of(pats@).push(o@));
            assert(views_of(pats@).push(o@) =~= opens_of(str_views(tags@)).take(i + 1));
        }
        pats.push(o);
        i = i + 1;
    }
    proof {
        assert(opens_of(str_views(tags@)).take(tags@.len() as int) =~= opens_of(str_views(tags@)));
    }
    let mut probe: Vec<char> = Vec::new();
    probe.push(' ');
    probe.push('n');
    probe.push('o');
    probe.push('n');
    probe.push('c');
    probe.push('e');
    probe.push('=');
    probe.push('"');
    let mut add: Vec<char> = Vec::new();
    push_all(&mut add, &probe);
    push_all(&mut add, &nonce_chars);
    add.push('"');
    proof {
        assert(probe@ =~= nonce_probe());
        assert(add@ =~= nonce_attr_body(nonce@));
    }
    let out = inject_chars(&bodychars, &pats, &probe, &add);
    chars_to_string(&out)
}

/// Running the tag injection a second time, with any fresh nonce, changes
/// nothing: every configured opening tag already carries a nonce attribute
/// after the first run.
pub proof fn lemma_inject_tags_idempotent(
    body: Seq<char>,
    tags: Seq<Seq<char>>,
    n1: Seq<char>,
    n2: Seq<char>,
)
    requires
        tags_text(tags),
        nonce_text(n1),
        nonce_text(n2),
    ensures
        inject_tags_spec(inject_tags_spec(body, tags, n1), tags, n2) == inject_tags_spec(
            body,
            tags,
            n1,
        ),
{
    lemma_nonce_text_clean(n1);
    lemma_nonce_text_clean(n2);
    let pats = opens_of(tags);
    assert forall|k: int| 0 <= k < pats.len() implies wf_open(#[trigger] pats[k]) by {
        assert(pats[k] == seq!['<'] + tags[k]);
        assert(tag_text(tags[k]));
        assert forall|i: int| 1 <= i < pats[k].len() implies pats[k][i] != '<' && pats[k][i]
            != ' ' by {
            assert(pats[k][i] == tags[k][i - 1]);
        }
    }
    let probe = nonce_probe();
    assert(probe.len() == 8);
    assert(probe[0] == ' ');
    assert(lacks(probe, '<'));
    let add1 = nonce_attr_body(n1);
    let add2 = nonce_attr_body(n2);
    assert(is_prefix(probe, add1)) by {
        assert(add1.subrange(0, 8) =~= probe);
    }
    assert(is_prefix(probe, add2)) by {
        assert(add2.subrange(0, 8) =~= probe);
    }
    assert(lacks(add1, '<')) by {
        assert forall|i: int| 0 <= i < add1.len() implies add1[i] != '<' by {
            if i < 8 {
                assert(add1[i] == probe[i]);
            } else if i < 8 + n1.len() {
                assert(add1[i] == n1[i - 8]);
            } else {
                assert(add1[i] == '"');
            }
        }
    }
    assert(lacks(add2, '<')) by {
        assert forall|i: int| 0 <= i < add2.len() implies add2[i] != '<' by {
            if i < 8 {
                assert(add2[i] == probe[i]);
            } else if i < 8 + n2.len() {
                assert(add2[i] == n2[i - 8]);
            } else {
                assert(add2[i] == '"');
            }
        }
    }
    lemma_inject_idempotent(body, pats, probe, add1, add2);
}

/// Nonce configuration the machinery needed but did not find; the service
/// reports each in its log and carries on.
#[derive(Debug)]
pub enum HeaderAnomaly {
    MissingNonceTags,
    MissingNonceDirectives,
}

/// What the mutator does to one response: the headers to set, the
/// replacement body when the body is buffered and re-written, and the
/// anomalies met.
pub struct ResponseMutation {
    pub headers: Vec<(String, String)>,
    pub body: Option<String>,
    pub anomalies: Vec<HeaderAnomaly>,
}

/// The security-header mutator: the application configuration and the
/// compiled set of nonce-eligible path patterns.
pub struct SecurityHttpHeaders {
    pub config: CustomAppConfig,
    pub regex_paths: RegexPaths,
}

/// The views of a header list.
pub open spec fn header_views(hs: Seq<(String, String)>) -> Seq<(Seq<char>, Seq<char>)> {
    hs.map_values(|p: (String, String)| (p.0@, p.1@))
}

/// The header entry of one optional configuration value.
pub open spec fn opt_header(name: Seq<char>, v: Option<String>) -> Seq<(Seq<char>, Seq<char>)> {
    match v {
        Some(s) => seq![(name, s@)],
        None => Seq::<(Seq<char>, Seq<char>)>::empty(),
    }
}

/// The additional static security headers, each set exactly when its
/// configuration value is present.
pub open spec fn extra_headers_spec(h: CustomAppHttpHeadersConfig) -> Seq<(Seq<char>, Seq<char>)> {
    opt_header(("Permissions-Policy")@, h.permissions_policy) + opt_header(
        ("Referrer-Policy")@,
        h.referrer_policy,
    ) + opt_header(("Cross-Origin-Embedder-Policy")@, h.cross_origin_embedder_policy)
        + opt_header(("Cross-Origin-Opener-Policy")@, h.cross_origin_opener_policy) + opt_header(
        ("Cross-Origin-Resource-Policy")@,
        h.cross_origin_resource_policy,
    )
}

/// The CSP header value: the template with the nonce spliced onto each
/// configured directive name, or the template itself when none are
/// configured.
pub open spec fn final_csp(
    h: CustomAppHttpHeadersConfig,
    csp: Seq<char>,
    nonce: Seq<char>,
) -> Seq<char> {
    match h.content_security_policy_nonce_headers {
        Some(dirs) => splice_dirs(csp, str_views(dirs@), nonce),
        None => csp,
    }
}

/// The response body: re-written with the nonce when the path matched and
/// tag names are configured, untouched otherwise.
pub open spec fn final_body(
    h: CustomAppHttpHeadersConfig,
    matched: bool,
    body: Seq<char>,
    nonce: Seq<char>,
) -> Seq<char> {
    if matched {
        match h.content_security_policy_inject_nonce_tags {
            Some(tags) => inject_tags_spec(body, str_views(tags@), nonce),
            None => body,
        }
    } else {
        body
    }
}

/// Running the mutator's body rewrite a second time over its own output,
/// with whatever fresh nonce the second response would draw, changes
/// nothing: no opening tag receives a second nonce attribute.
pub proof fn lemma_final_body_idempotent(
    h: CustomAppHttpHeadersConfig,
    matched: bool,
    body: Seq<char>,
    n1: Seq<char>,
    n2: Seq<char>,
)
    requires
        h.content_security_policy_inject_nonce_tags matches Some(tags) ==> tags_text(
            str_views(tags@),
        ),
        nonce_text(n1),
        nonce_text(n2),
    ensures
        final_body(h, matched, final_body(h, matched, body, n1), n2) == final_body(
            h,
            matched,
            body,
            n1,
        ),
{
    if matched {
        match h.content_security_policy_inject_nonce_tags {
            Some(tags) => {
                lemma_inject_tags_idempotent(body, str_views(tags@), n1, n2);
            },
            None => {},
        }
    }
}

/// The anomalies of one nonce-bearing response: a missing tag list, then a
/// missing directive list.
pub open spec fn nonce_anomalies(h: CustomAppHttpHeadersConfig) -> Seq<HeaderAnomaly> {
    (if h.content_security_policy_inject_nonce_tags is None {
        seq![HeaderAnomaly::MissingNonceTags]
    } else {
        Seq::<HeaderAnomaly>::empty()
    }) + (if h.content_security_policy_nonce_headers is None {
        seq![HeaderAnomaly::MissingNonceDirectives]
    } else {
        Seq::<HeaderAnomaly>::empty()
    })
}

/// Appends one header.
fn push_header(hs: &mut Vec<(String, String)>, name: &str, v: String)
    ensures
        header_views(final(hs)@) == header_views(old(hs)@).push((name@, v@)),
{
    let ghost before = hs@;
    hs.push((name.to_owned(), v));
    proof {
        assert(header_views(hs@) =~= header_views(before).push((name@, v@)));
    }
}

/// Appends the additional static security headers.
fn push_extra_headers(h: &CustomAppHttpHeadersConfig, hs: &mut Vec<(String, String)>)
    ensures
        header_views(final(hs)@) == header_views(old(hs)@) + extra_headers_spec(*h),
{
    let ghost e0 = header_views(old(hs)@);
    if let Some(v) = &h.permissions_policy {
        push_header(hs, "Permissions-Policy", v.clone());
    }
    proof {
        assert(header_views(hs@) =~= e0 + opt_header(("Permissions-Policy")@,
        h.permissions_policy));
    }
    let ghost e1 = header_views(hs@);
    if let Some(v) = &h.referrer_policy {
        push_header(hs, "Referrer-Policy", v.clone());
    }
    proof {
        assert(header_views(hs@) =~= e1 + opt_header(("Referrer-Policy")@, h.referrer_policy));
    }
    let ghost e2 = header_views(hs@);
    if let Some(v) = &h.cross_origin_embedder_policy {
        push_header(hs, "Cross-Origin-Embedder-Policy", v.clone());
    }
    proof {
        assert(header_views(hs@) =~= e2 + opt_header(("Cross-Origin-Embedder-Policy")@,
        h.cross_origin_embedder_policy));
    }
    let ghost e3 = header_views(hs@);
    if let Some(v) = &h.cross_origin_opener_policy {
        push_header(hs, "Cross-Origin-Opener-Policy", v.clone());
    }
    proof {
        assert(header_views(hs@) =~= e3 + opt_header(("Cross-Origin-Opener-Policy")@,
        h.cross_origin_opener_policy));
    }
    let ghost e4 = header_views(hs@);
    if let Some(v) = &h.cross_origin_resource_policy {
        push_header(hs, "Cross-Origin-Resource-Policy", v.clone());
    }
    proof {
        assert(header_views(hs@) =~= e4 + opt_header(("Cross-Origin-Resource-Policy")@,
        h.cross_origin_resource_policy));
        assert(header_views(hs@) =~= e0 + extra_headers_spec(*h));
    }
}

impl SecurityHttpHeaders {
    /// Post-processes one response. On a 200 response with a CSP template
    /// and at least one nonce-eligible path pattern, a fresh nonce is
    /// spliced onto the configured CSP directives, and onto the configured
    /// HTML tags of the body when the request path matches a pattern; the
    /// same nonce stands in header and body. The additional static headers
    /// are set whenever a CSP template is configured.
    pub fn on_response(&self, status: u16, path: &str, body: String) -> (r: ResponseMutation)
        ensures
            status != 200 || self.config.httpheaders.content_security_policy is None ==> (
            r.headers@.len() == 0 && r.body is None && r.anomalies@.len() == 0),
            (status == 200 && self.config.httpheaders.content_security_policy is Some
                && self.regex_paths.patterns_view().len() == 0) ==> (header_views(r.headers@)
                == extra_headers_spec(self.config.httpheaders) && r.body is None
                && r.anomalies@.len() == 0),
            (status == 200 && self.config.httpheaders.content_security_policy is Some
                && self.regex_paths.patterns_view().len() > 0) ==> {
                &&& r.anomalies@ == nonce_anomalies(self.config.httpheaders)
                &&& exists|nonce: Seq<char>|
                    {
                        &&& #[trigger] nonce_text(nonce)
                        &&& nonce.len() == 88
                        &&& header_views(r.headers@) == seq![
                            (
                                ("Content-Security-Policy")@,
                                final_csp(
                                    self.config.httpheaders,
                                    (self.config.httpheaders.content_security_policy->0)@,
                                    nonce,
                                ),
                            ),
                        ] + extra_headers_spec(self.config.httpheaders)
                        &&& r.body matches Some(b) && b@ == final_body(
                            self.config.httpheaders,
                            regex_set_match(self.regex_paths.patterns_view(), path@),
                            body@,
                            nonce,
                        )
                    }
            },
    {
        if status != 200 {
            return ResponseMutation { headers: Vec::new(), body: None, anomalies: Vec::new() };
        }
        let h = &self.config.httpheaders;
        match &h.content_security_policy {
            None => ResponseMutation { headers: Vec::new(), body: None, anomalies: Vec::new() },
            Some(csp) => {
                let mut headers: Vec<(String, String)> = Vec::new();
                let mut anomalies: Vec<HeaderAnomaly> = Vec::new();
                if self.regex_paths.len() > 0 {
                    let nonce = generate_nonce();
                    if h.content_security_policy_inject_nonce_tags.is_none() {
                        anomalies.push(HeaderAnomaly::MissingNonceTags);
                    }
                    let csp_final = match &h.content_security_policy_nonce_headers {
                        Some(dirs) => splice_csp_directives(csp, dirs, &nonce),
                        None => {
                            anomalies.push(HeaderAnomaly::MissingNonceDirectives);
                            csp.clone()
                        },
                    };
                    proof {
                        assert(anomalies@ =~= nonce_anomalies(self.config.httpheaders));
                        assert(csp_final@ == final_csp(self.config.httpheaders, csp@, nonce@));
                    }
                    push_header(&mut headers, "Content-Security-Policy", csp_final);
                    let ghost hdr1 = header_views(headers@);
                    push_extra_headers(h, &mut headers);
                    let matched = self.regex_paths.is_match(path);
                    let ghost body0 = body@;
                    let new_body = if matched {
                        match &h.content_security_policy_inject_nonce_tags {
                            Some(tags) => inject_nonce_tags(&body, tags, &nonce),
                            None => body,
                        }
                    } else {
                        body
                    };
                    proof {
                        assert(nonce_text(nonce@));
                        assert(hdr1 =~= seq![
                            (
                                ("Content-Security-Policy")@,
                                final_csp(self.config.httpheaders, csp@, nonce@),
                            ),
                        ]);
                        assert(new_body@ == final_body(
                            self.config.httpheaders,
                            regex_set_match(self.regex_paths.patterns_view(), path@),
                            body0,
                            nonce@,
                        ));
                    }
                    ResponseMutation { headers, body: Some(new_body), anomalies }
                } else {
                    push_extra_headers(h, &mut headers);
                    proof {
                        assert(header_views(headers@) =~= extra_headers_spec(
                            self.config.httpheaders,
                        ));
                    }
                    ResponseMutation { headers, body: None, anomalies }
                }
            },
        }
    }
}

use crate::config::{clone_opt_string, opt_list_views, same_oidc_config};

/// Copies an optional list of strings.
fn clone_opt_strings(o: &Option<Vec<String>>) -> (r: Option<Vec<String>>)
    ensures
        opt_list_views(r) == opt_list_views(*o),
        (r is Some) == (*o is Some),
{
    match o {
        Some(v) => Some(crate::config::clone_strings(v)),
        None => None,
    }
}

/// Copies the OIDC configuration, value for value.
fn clone_oidc_config(o: &crate::config::CustomAppOidcConfig) -> (r:
    crate::config::CustomAppOidcConfig)
    ensures
        same_oidc_config(r, *o),
{
    let claims_separator = match &o.claims_separator {
        Some(tab) => {
            let mut t: Vec<(String, String)> = Vec::new();
            let mut i: usize = 0;
            while i < tab.len()
                invariant
                    i <= tab@.len(),
                    t@ == tab@.subrange(0, i as int),
                decreases tab@.len() - i,
            {
                t.push((tab[i].0.clone(), tab[i].1.clone()));
                proof {
                    assert(tab@.subrange(0, i + 1) =~= tab@.subrange(0, i as int).push(
                        tab@[i as int],
                    ));
                }
                i = i + 1;
            }
            proof {
                assert(tab@.subrange(0, tab@.len() as int) =~= tab@);
            }
            Some(t)
        },
        None => None,
    };
    crate::config::CustomAppOidcConfig {
        issuer_url: clone_opt_string(&o.issuer_url),
        redirect_url: clone_opt_string(&o.redirect_url),
        client_id: clone_opt_string(&o.client_id),
        client_secret: clone_opt_string(&o.client_secret),
        roles_idtoken_claims: clone_opt_strings(&o.roles_idtoken_claims),
        roles_userinfoendpoint_claims: clone_opt_strings(&o.roles_userinfoendpoint_claims),
        claims_separator,
        scopes: clone_opt_strings(&o.scopes),
    }
}

/// Reads the security-header configuration and compiles the nonce-eligible
/// path patterns; accepted exactly when every configured pattern (none, if
/// the list is absent) compiles.
pub fn read_security_http_headers_config(config: &Config) -> (r: Result<
    SecurityHttpHeaders,
    RegexBuildError,
>)
    ensures
        (r is Ok) == regex_patterns_compile(
            match config.app.httpheaders.content_security_policy_inject_nonce_paths {
                Some(ps) => str_views(ps@),
                None => Seq::<Seq<char>>::empty(),
            },
        ),
        r matches Ok(s) ==> {
            &&& s.config.httpheaders.content_security_policy
                == config.app.httpheaders.content_security_policy
            &&& s.config.httpheaders.permissions_policy
                == config.app.httpheaders.permissions_policy
            &&& s.config.httpheaders.referrer_policy == config.app.httpheaders.referrer_policy
            &&& s.config.httpheaders.cross_origin_embedder_policy
                == config.app.httpheaders.cross_origin_embedder_policy
            &&& s.config.httpheaders.cross_origin_opener_policy
                == config.app.httpheaders.cross_origin_opener_policy
            &&& s.config.httpheaders.cross_origin_resource_policy
                == config.app.httpheaders.cross_origin_resource_policy
            &&& opt_list_views(s.config.httpheaders.content_security_policy_inject_nonce_tags)
                == opt_list_views(
                config.app.httpheaders.content_security_policy_inject_nonce_tags,
            )
            &&& opt_list_views(s.config.httpheaders.content_security_policy_nonce_headers)
                == opt_list_views(config.app.httpheaders.content_security_policy_nonce_headers)
            &&& opt_list_views(s.config.httpheaders.content_security_policy_inject_nonce_paths)
                == opt_list_views(
                config.app.httpheaders.content_security_policy_inject_nonce_paths,
            )
            &&& s.regex_paths.patterns_view() == (
            match config.app.httpheaders.content_security_policy_inject_nonce_paths {
                Some(ps) => str_views(ps@),
                None => Seq::<Seq<char>>::empty(),
            })
            &&& same_oidc_config(s.config.oidc, config.app.oidc)
            &&& s.config.fileserver == config.app.fileserver
        },
{
    let hh = &config.app.httpheaders;
    let patterns: Vec<String> = match &hh.content_security_policy_inject_nonce_paths {
        Some(ps) => crate::config::clone_strings(ps),
        None => Vec::new(),
    };
    proof {
        match &config.app.httpheaders.content_security_policy_inject_nonce_paths {
            Some(ps) => {
                assert(str_views(patterns@) =~= str_views(ps@));
            },
            None => {
                assert(str_views(patterns@) =~= Seq::<Seq<char>>::empty());
            },
        }
    }
    let regex_paths = match RegexPaths::new(&patterns) {
        Ok(rp) => rp,
        Err(e) => {
            return Err(e);
        },
    };
    let httpheaders = CustomAppHttpHeadersConfig {
        content_security_policy: clone_opt_string(&hh.content_security_policy),
        content_security_policy_inject_nonce_paths: clone_opt_strings(
            &hh.content_security_policy_inject_nonce_paths,
        ),
        content_security_policy_inject_nonce_tags: clone_opt_strings(
            &hh.content_security_policy_inject_nonce_tags,
        ),
        content_security_policy_nonce_headers: clone_opt_strings(
            &hh.content_security_policy_nonce_headers,
        ),
        permissions_policy: clone_opt_string(&hh.permissions_policy),
        referrer_policy: clone_opt_string(&hh.referrer_policy),
        cross_origin_embedder_policy: clone_opt_string(&hh.cross_origin_embedder_policy),
        cross_origin_opener_policy: clone_opt_string(&hh.cross_origin_opener_policy),
        cross_origin_resource_policy: clone_opt_string(&hh.cross_origin_resource_policy),
    };
    let app = CustomAppConfig {
        httpheaders,
        oidc: clone_oidc_config(&config.app.oidc),
        fileserver: crate::config::CustomAppStaticFilesConfig {
            location: config.app.fileserver.location.clone(),
        },
    };
    Ok(SecurityHttpHeaders { config: app, regex_paths })
}

} // verus!
