//! The user-agent classifier: a raw client-identification string becomes
//! structured client metadata, or a drop outcome.  Classification tries an
//! ordered set of grammars, first match wins.  Ignorability is decided first,
//! whatever else the string would parse as, so that operationally-injected
//! traffic (monitors, health checks, crawlers) never pollutes analytics or
//! error-rate metrics.  Then the structured self-describing form is tried,
//! then the legacy compact form; a string matching no known grammar is
//! invalid, never an error.

use vstd::prelude::*;
use crate::text::{
    bytes_eq, find_byte, find_from, has_prefix, sub_vec, COLON, COMMA, LBRACE, QUOTE, RBRACE,
    SLASH, SPACE,
};
use vstd::slice::slice_index_get;
use vstd::slice::slice_subrange;

verus! {

/// Structured installer/platform/runtime attributes decoded from a
/// client-identification string.  Every field is optional: older or minimal
/// clients supply only a name/version pair, and the classifier degrades
/// gracefully rather than fail when richer fields are absent.
pub struct ClientMetadata {
    pub installer_name: Option<Vec<u8>>,
    pub installer_version: Option<Vec<u8>>,
    pub implementation_name: Option<Vec<u8>>,
    pub implementation_version: Option<Vec<u8>>,
    pub system_name: Option<Vec<u8>>,
    pub system_release: Option<Vec<u8>>,
    pub distro_name: Option<Vec<u8>>,
    pub distro_version: Option<Vec<u8>>,
    pub cpu: Option<Vec<u8>>,
    pub ci: Option<bool>,
    pub tls_protocol: Option<Vec<u8>>,
    pub openssl_version: Option<Vec<u8>>,
    pub setuptools_version: Option<Vec<u8>>,
}

pub ghost struct ClientModel {
    pub installer_name: Option<Seq<u8>>,
    pub installer_version: Option<Seq<u8>>,
    pub implementation_name: Option<Seq<u8>>,
    pub implementation_version: Option<Seq<u8>>,
    pub system_name: Option<Seq<u8>>,
    pub system_release: Option<Seq<u8>>,
    pub distro_name: Option<Seq<u8>>,
    pub distro_version: Option<Seq<u8>>,
    pub cpu: Option<Seq<u8>>,
    pub ci: Option<bool>,
    pub tls_protocol: Option<Seq<u8>>,
    pub openssl_version: Option<Seq<u8>>,
    pub setuptools_version: Option<Seq<u8>>,
}

pub open spec fn opt_view(o: Option<Vec<u8>>) -> Option<Seq<u8>> {
    match o {
        Some(v) => Some(v@),
        None => None,
    }
}

impl View for ClientMetadata {
    type V = ClientModel;

    open spec fn view(&self) -> ClientModel {
        ClientModel {
            installer_name: opt_view(self.installer_name),
            installer_version: opt_view(self.installer_version),
            implementation_name: opt_view(self.implementation_name),
            implementation_version: opt_view(self.implementation_version),
            system_name: opt_view(self.system_name),
            system_release: opt_view(self.system_release),
            distro_name: opt_view(self.distro_name),
            distro_version: opt_view(self.distro_version),
            cpu: opt_view(self.cpu),
            ci: self.ci,
            tls_protocol: opt_view(self.tls_protocol),
            openssl_version: opt_view(self.openssl_version),
            setuptools_version: opt_view(self.setuptools_version),
        }
    }
}

pub open spec fn empty_client() -> ClientModel {
    ClientModel {
        installer_name: None,
        installer_version: None,
        implementation_name: None,
        implementation_version: None,
        system_name: None,
        system_release: None,
        distro_name: None,
        distro_version: None,
        cpu: None,
        ci: None,
        tls_protocol: None,
        openssl_version: None,
        setuptools_version: None,
    }
}

impl ClientMetadata {
    pub fn empty() -> (r: ClientMetadata)
        ensures
            r@ == empty_client(),
    {
        ClientMetadata {
            installer_name: None,
            installer_version: None,
            implementation_name: None,
            implementation_version: None,
            system_name: None,
            system_release: None,
            distro_name: None,
            distro_version: None,
            cpu: None,
            ci: None,
            tls_protocol: None,
            openssl_version: None,
            setuptools_version: None,
        }
    }
}

// ---------------------------------------------------------------------------
// Key and word spellings of the structured form, as byte sequences.

/// "installer"
pub open spec fn key_installer() -> Seq<u8> {
    seq![105u8, 110, 115, 116, 97, 108, 108, 101, 114]
}

/// "implementation"
pub open spec fn key_implementation() -> Seq<u8> {
    seq![105u8, 109, 112, 108, 101, 109, 101, 110, 116, 97, 116, 105, 111, 110]
}

/// "system"
pub open spec fn key_system() -> Seq<u8> {
    seq![115u8, 121, 115, 116, 101, 109]
}

/// "distro"
pub open spec fn key_distro() -> Seq<u8> {
    seq![100u8, 105, 115, 116, 114, 111]
}

/// "name"
pub open spec fn key_name() -> Seq<u8> {
    seq![110u8, 97, 109, 101]
}

/// "version"
pub open spec fn key_version() -> Seq<u8> {
    seq![118u8, 101, 114, 115, 105, 111, 110]
}

/// "release"
pub open spec fn key_release() -> Seq<u8> {
    seq![114u8, 101, 108, 101, 97, 115, 101]
}

/// "python"
pub open spec fn key_python() -> Seq<u8> {
    seq![112u8, 121, 116, 104, 111, 110]
}

/// "cpu"
pub open spec fn key_cpu() -> Seq<u8> {
    seq![99u8, 112, 117]
}

/// "ci"
pub open spec fn key_ci() -> Seq<u8> {
    seq![99u8, 105]
}

/// "tls_protocol"
pub open spec fn key_tls_protocol() -> Seq<u8> {
    seq![116u8, 108, 115, 95, 112, 114, 111, 116, 111, 99, 111, 108]
}

/// "openssl_version"
pub open spec fn key_openssl_version() -> Seq<u8> {
    seq![111u8, 112, 101, 110, 115, 115, 108, 95, 118, 101, 114, 115, 105, 111, 110]
}

/// "setuptools_version"
pub open spec fn key_setuptools_version() -> Seq<u8> {
    seq![115u8, 101, 116, 117, 112, 116, 111, 111, 108, 115, 95, 118, 101, 114, 115, 105, 111, 110]
}

/// "true"
pub open spec fn word_true() -> Seq<u8> {
    seq![116u8, 114, 117, 101]
}

/// "false"
pub open spec fn word_false() -> Seq<u8> {
    seq![102u8, 97, 108, 115, 101]
}

/// "null"
pub open spec fn word_null() -> Seq<u8> {
    seq![110u8, 117, 108, 108]
}

// ---------------------------------------------------------------------------
// The known-ignorable table: an ordered, data-driven list of matchers, so a
// new bot or probe signature is an addition, not a code change.

pub enum MatchKind {
    Literal,
    Prefix,
}

/// One entry of the ignorable table.
pub struct Matcher {
    pub kind: MatchKind,
    pub pattern: Vec<u8>,
}

pub ghost struct MatcherModel {
    pub kind: MatchKind,
    pub pattern: Seq<u8>,
}

impl View for Matcher {
    type V = MatcherModel;

    open spec fn view(&self) -> MatcherModel {
        MatcherModel { kind: self.kind, pattern: self.pattern@ }
    }
}

pub open spec fn matcher_matches(m: MatcherModel, s: Seq<u8>) -> bool {
    match m.kind {
        MatchKind::Literal => s == m.pattern,
        MatchKind::Prefix => m.pattern.is_prefix_of(s),
    }
}

/// "GoogleBot"
pub open spec fn pat_googlebot() -> Seq<u8> {
    seq![71u8, 111, 111, 103, 108, 101, 66, 111, 116]
}

/// "bingbot"
pub open spec fn pat_bingbot() -> Seq<u8> {
    seq![98u8, 105, 110, 103, 98, 111, 116]
}

/// "Datadog"
pub open spec fn pat_datadog() -> Seq<u8> {
    seq![68u8, 97, 116, 97, 100, 111, 103]
}

/// "Pingdom"
pub open spec fn pat_pingdom() -> Seq<u8> {
    seq![80u8, 105, 110, 103, 100, 111, 109]
}

/// "ELB-HealthChecker/2.0"
pub open spec fn pat_elb_healthchecker() -> Seq<u8> {
    seq![69u8, 76, 66, 45, 72, 101, 97, 108, 116, 104, 67, 104, 101, 99, 107, 101, 114, 47, 50, 46, 48]
}

/// The recognized ignorable client signatures, in match order.
pub open spec fn ignorable_table() -> Seq<MatcherModel> {
    seq![
        MatcherModel { kind: MatchKind::Prefix, pattern: pat_googlebot() },
        MatcherModel { kind: MatchKind::Prefix, pattern: pat_bingbot() },
        MatcherModel { kind: MatchKind::Prefix, pattern: pat_datadog() },
        MatcherModel { kind: MatchKind::Prefix, pattern: pat_pingdom() },
        MatcherModel { kind: MatchKind::Literal, pattern: pat_elb_healthchecker() },
    ]
}

/// Recognized as traffic intentionally excluded from analytics.
pub open spec fn is_ignorable(s: Seq<u8>) -> bool {
    exists|i: int| 0 <= i < ignorable_table().len() && matcher_matches(#[trigger] ignorable_table()[i], s)
}

fn make_matcher(kind: MatchKind, pattern: Vec<u8>) -> (r: Matcher)
    ensures
        r@ == (MatcherModel { kind, pattern: pattern@ }),
{
    Matcher { kind, pattern }
}

/// Builds the ignorable table; new signatures are added here.
pub fn build_ignorable_table() -> (t: Vec<Matcher>)
    ensures
        t@.map_values(|m: Matcher| m@) =~= ignorable_table(),
{
    let mut t: Vec<Matcher> = Vec::new();
    let p1: Vec<u8> = vec![71u8, 111, 111, 103, 108, 101, 66, 111, 116];
    assert(p1@ =~= pat_googlebot());
    t.push(make_matcher(MatchKind::Prefix, p1));
    let p2: Vec<u8> = vec![98u8, 105, 110, 103, 98, 111, 116];
    assert(p2@ =~= pat_bingbot());
    t.push(make_matcher(MatchKind::Prefix, p2));
    let p3: Vec<u8> = vec![68u8, 97, 116, 97, 100, 111, 103];
    assert(p3@ =~= pat_datadog());
    t.push(make_matcher(MatchKind::Prefix, p3));
    let p4: Vec<u8> = vec![80u8, 105, 110, 103, 100, 111, 109];
    assert(p4@ =~= pat_pingdom());
    t.push(make_matcher(MatchKind::Prefix, p4));
    let p5: Vec<u8> = vec![
        69u8, 76, 66, 45, 72, 101, 97, 108, 116, 104, 67, 104, 101, 99, 107, 101, 114, 47, 50, 46,
        48,
    ];
    assert(p5@ =~= pat_elb_healthchecker());
    t.push(make_matcher(MatchKind::Literal, p5));
    t
}

/// Decides ignorability against the table.
pub fn check_ignorable(s: &[u8]) -> (r: bool)
    ensures
        r == is_ignorable(s@),
{
    let t = build_ignorable_table();
    let ghost tm = t@.map_values(|m: Matcher| m@);
    let mut i: usize = 0;
    loop
        invariant
            0 <= i <= t@.len(),
            tm =~= ignorable_table(),
            tm == t@.map_values(|m: Matcher| m@),
            forall|j: int| 0 <= j < i ==> !matcher_matches(#[trigger] tm[j], s@),
        decreases t@.len() - i,
    {
        if i == t.len() {
            assert(!is_ignorable(s@));
            return false;
        }
        let m = &t[i];
        assert(m@ == tm[i as int]);
        let hit = match m.kind {
            MatchKind::Literal => bytes_eq(s, m.pattern.as_slice()),
            MatchKind::Prefix => has_prefix(s, m.pattern.as_slice()),
        };
        if hit {
            assert(matcher_matches(tm[i as int], s@));
            return true;
        }
        i = i + 1;
    }
}

/// No ignorable signature is the empty string, so the empty client string is
/// never ignorable.
pub proof fn lemma_empty_not_ignorable(s: Seq<u8>)
    requires
        s.len() == 0,
    ensures
        !is_ignorable(s),
{
    assert forall|i: int| 0 <= i < ignorable_table().len() implies !matcher_matches(
        #[trigger] ignorable_table()[i],
        s,
    ) by {
        let m = ignorable_table()[i];
        assert(m.pattern.len() > 0) by {
            if i == 0 {
                assert(m.pattern =~= pat_googlebot());
            } else if i == 1 {
                assert(m.pattern =~= pat_bingbot());
            } else if i == 2 {
                assert(m.pattern =~= pat_datadog());
            } else if i == 3 {
                assert(m.pattern =~= pat_pingdom());
            } else {
                assert(m.pattern =~= pat_elb_healthchecker());
            }
        }
        match m.kind {
            MatchKind::Literal => {
                assert(s != m.pattern);
            },
            MatchKind::Prefix => {
                assert(!m.pattern.is_prefix_of(s));
            },
        }
    }
}

// ---------------------------------------------------------------------------
// Legacy compact form: a bare `name/version` token optionally followed by an
// implementation `name/version` token and a system `name/release` token.

/// The `name/version` pair held by the token `s[a..b)`: the part before the
/// first slash and the part after it, both nonempty.
pub open spec fn nv_pair_at(s: Seq<u8>, a: int, b: int) -> Option<(Seq<u8>, Seq<u8>)> {
    let k = find_from(s, a, SLASH);
    if 0 <= a && b <= s.len() && a < k && k + 1 < b {
        Some((s.subrange(a, k), s.subrange(k + 1, b)))
    } else {
        None
    }
}

pub open spec fn parse_legacy(s: Seq<u8>) -> Option<ClientModel> {
    let e1 = find_from(s, 0, SPACE);
    match nv_pair_at(s, 0, e1) {
        None => None,
        Some((n1, v1)) => {
            let m1 = ClientModel {
                installer_name: Some(n1),
                installer_version: Some(v1),
                ..empty_client()
            };
            if e1 >= s.len() {
                Some(m1)
            } else {
                let e2 = find_from(s, e1 + 1, SPACE);
                match nv_pair_at(s, e1 + 1, e2) {
                    None => None,
                    Some((n2, v2)) => {
                        let m2 = ClientModel {
                            implementation_name: Some(n2),
                            implementation_version: Some(v2),
                            ..m1
                        };
                        if e2 >= s.len() {
                            Some(m2)
                        } else {
                            let e3 = find_from(s, e2 + 1, SPACE);
                            match nv_pair_at(s, e2 + 1, e3) {
                                None => None,
                                Some((n3, r3)) => {
                                    let m3 = ClientModel {
                                        system_name: Some(n3),
                                        system_release: Some(r3),
                                        ..m2
                                    };
                                    if e3 >= s.len() {
                                        Some(m3)
                                    } else {
                                        None
                                    }
                                },
                            }
                        }
                    },
                }
            }
        },
    }
}

fn nv_exec(s: &[u8], a: usize, b: usize) -> (r: Option<(Vec<u8>, Vec<u8>)>)
    requires
        a <= s@.len(),
        b <= s@.len(),
    ensures
        match r {
            Some(p) => nv_pair_at(s@, a as int, b as int) == Some((p.0@, p.1@)),
            None => nv_pair_at(s@, a as int, b as int) is None,
        },
{
    let k = find_byte(s, a, SLASH);
    if a < k && k < b && k + 1 < b {
        Some((sub_vec(s, a, k), sub_vec(s, k + 1, b)))
    } else {
        None
    }
}

fn legacy_exec(s: &[u8]) -> (r: Option<ClientMetadata>)
    ensures
        match r {
            Some(m) => parse_legacy(s@) == Some(m@),
            None => parse_legacy(s@) is None,
        },
{
    let e1 = find_byte(s, 0, SPACE);
    proof {
        crate::text::lemma_find_from(s@, 0, SPACE);
    }
    match nv_exec(s, 0, e1) {
        None => None,
        Some((n1, v1)) => {
            let mut m = ClientMetadata::empty();
            m.installer_name = Some(n1);
            m.installer_version = Some(v1);
            if e1 == s.len() {
                return Some(m);
            }
            let e2 = find_byte(s, e1 + 1, SPACE);
            proof {
                crate::text::lemma_find_from(s@, e1 + 1, SPACE);
            }
            match nv_exec(s, e1 + 1, e2) {
                None => None,
                Some((n2, v2)) => {
                    m.implementation_name = Some(n2);
                    m.implementation_version = Some(v2);
                    if e2 == s.len() {
                        return Some(m);
                    }
                    let e3 = find_byte(s, e2 + 1, SPACE);
                    proof {
                        crate::text::lemma_find_from(s@, e2 + 1, SPACE);
                    }
                    match nv_exec(s, e2 + 1, e3) {
                        None => None,
                        Some((n3, r3)) => {
                            m.system_name = Some(n3);
                            m.system_release = Some(r3);
                            if e3 == s.len() {
                                Some(m)
                            } else {
                                None
                            }
                        },
                    }
                },
            }
        },
    }
}

// ---------------------------------------------------------------------------
// Structured form: `name/version` then a space, then a brace-delimited block
// of `"key":value` pairs, where a value is a quoted string, a literal word
// `true`/`false`/`null`, or a nested block of string pairs.  Recognized keys
// fill metadata fields; unknown keys are skipped without failing the match.

pub open spec fn matches_at(s: Seq<u8>, v: int, w: Seq<u8>) -> bool {
    0 <= v && v + w.len() <= s.len() && s.subrange(v, v + w.len() as int) == w
}

pub open spec fn apply_string(m: ClientModel, key: Seq<u8>, val: Seq<u8>) -> ClientModel {
    if key == key_python() {
        ClientModel { implementation_version: Some(val), ..m }
    } else if key == key_cpu() {
        ClientModel { cpu: Some(val), ..m }
    } else if key == key_tls_protocol() {
        ClientModel { tls_protocol: Some(val), ..m }
    } else if key == key_openssl_version() {
        ClientModel { openssl_version: Some(val), ..m }
    } else if key == key_setuptools_version() {
        ClientModel { setuptools_version: Some(val), ..m }
    } else {
        m
    }
}

pub open spec fn apply_bool(m: ClientModel, key: Seq<u8>, b: bool) -> ClientModel {
    if key == key_ci() {
        ClientModel { ci: Some(b), ..m }
    } else {
        m
    }
}

pub open spec fn apply_nested(m: ClientModel, outer: Seq<u8>, inner: Seq<u8>, val: Seq<u8>) -> ClientModel {
    if outer == key_installer() {
        if inner == key_name() {
            ClientModel { installer_name: Some(val), ..m }
        } else if inner == key_version() {
            ClientModel { installer_version: Some(val), ..m }
        } else {
            m
        }
    } else if outer == key_implementation() {
        if inner == key_name() {
            ClientModel { implementation_name: Some(val), ..m }
        } else if inner == key_version() {
            ClientModel { implementation_version: Some(val), ..m }
        } else {
            m
        }
    } else if outer == key_system() {
        if inner == key_name() {
            ClientModel { system_name: Some(val), ..m }
        } else if inner == key_release() {
            ClientModel { system_release: Some(val), ..m }
        } else {
            m
        }
    } else if outer == key_distro() {
        if inner == key_name() {
            ClientModel { distro_name: Some(val), ..m }
        } else if inner == key_version() {
            ClientModel { distro_version: Some(val), ..m }
        } else {
            m
        }
    } else {
        m
    }
}

/// The pairs of a nested block, from index `i` (just past its `{`) to just
/// past its `}`; values here are strings or literal words only.
pub open spec fn parse_inner_pairs(s: Seq<u8>, i: int, m: ClientModel, outer: Seq<u8>) -> Option<
    (int, ClientModel),
>
    decreases s.len() - i,
{
    if !(0 <= i < s.len()) {
        None
    } else if s[i] != QUOTE {
        None
    } else {
        let j = find_from(s, i + 1, QUOTE);
        if j >= s.len() {
            None
        } else {
            let key = s.subrange(i + 1, j);
            if !(j + 1 < s.len() && s[j + 1] == COLON) {
                None
            } else {
                let v = j + 2;
                let step: Option<(int, ClientModel)> = if v < s.len() && s[v] == QUOTE {
                    let w = find_from(s, v + 1, QUOTE);
                    if w >= s.len() {
                        None
                    } else {
                        Some((w + 1, apply_nested(m, outer, key, s.subrange(v + 1, w))))
                    }
                } else if matches_at(s, v, word_true()) {
                    Some((v + 4, m))
                } else if matches_at(s, v, word_false()) {
                    Some((v + 5, m))
                } else if matches_at(s, v, word_null()) {
                    Some((v + 4, m))
                } else {
                    None
                };
                match step {
                    None => None,
                    Some((e, m2)) => {
                        if !(i < e && e < s.len()) {
                            None
                        } else if s[e] == COMMA {
                            parse_inner_pairs(s, e + 1, m2, outer)
                        } else if s[e] == RBRACE {
                            Some((e + 1, m2))
                        } else {
                            None
                        }
                    },
                }
            }
        }
    }
}

/// One top-level value at index `v` under `key`.
pub open spec fn parse_top_value(s: Seq<u8>, v: int, m: ClientModel, key: Seq<u8>) -> Option<
    (int, ClientModel),
> {
    if v < s.len() && s[v] == QUOTE {
        let w = find_from(s, v + 1, QUOTE);
        if w >= s.len() {
            None
        } else {
            Some((w + 1, apply_string(m, key, s.subrange(v + 1, w))))
        }
    } else if v < s.len() && s[v] == LBRACE {
        parse_inner_pairs(s, v + 1, m, key)
    } else if matches_at(s, v, word_true()) {
        Some((v + 4, apply_bool(m, key, true)))
    } else if matches_at(s, v, word_false()) {
        Some((v + 5, apply_bool(m, key, false)))
    } else if matches_at(s, v, word_null()) {
        Some((v + 4, m))
    } else {
        None
    }
}

/// The top-level pairs of the block, from index `i` (just past the opening
/// `{`) to just past the closing `}`.
pub open spec fn parse_pairs(s: Seq<u8>, i: int, m: ClientModel) -> Option<(int, ClientModel)>
    decreases s.len() - i,
{
    if !(0 <= i < s.len()) {
        None
    } else if s[i] != QUOTE {
        None
    } else {
        let j = find_from(s, i + 1, QUOTE);
        if j >= s.len() {
            None
        } else {
            let key = s.subrange(i + 1, j);
            if !(j + 1 < s.len() && s[j + 1] == COLON) {
                None
            } else {
                match parse_top_value(s, j + 2, m, key) {
                    None => None,
                    Some((e, m2)) => {
                        if !(i < e && e < s.len()) {
                            None
                        } else if s[e] == COMMA {
                            parse_pairs(s, e + 1, m2)
                        } else if s[e] == RBRACE {
                            Some((e + 1, m2))
                        } else {
                            None
                        }
                    },
                }
            }
        }
    }
}

pub open spec fn parse_structured(s: Seq<u8>) -> Option<ClientModel> {
    let sp = find_from(s, 0, SPACE);
    if sp >= s.len() {
        None
    } else {
        match nv_pair_at(s, 0, sp) {
            None => None,
            Some((name, ver)) => {
                if !(sp + 1 < s.len() && s[sp + 1] == LBRACE) {
                    None
                } else {
                    let m0 = ClientModel {
                        installer_name: Some(name),
                        installer_version: Some(ver),
                        ..empty_client()
                    };
                    match parse_pairs(s, sp + 2, m0) {
                        None => None,
                        Some((e, m)) => if e == s.len() {
                            Some(m)
                        } else {
                            None
                        },
                    }
                }
            },
        }
    }
}

/// The metadata a client string decodes to, when it matches a known grammar:
/// the structured form is tried before the legacy compact form.
pub open spec fn spec_classify_meta(s: Seq<u8>) -> Option<ClientModel> {
    if parse_structured(s) is Some {
        parse_structured(s)
    } else {
        parse_legacy(s)
    }
}

// Exec spellings of the keys and words above; each returns the byte vector
// whose view is the corresponding spec sequence.

fn kb_installer() -> (v: Vec<u8>)
    ensures
        v@ == key_installer(),
{
    let v: Vec<u8> = vec![105u8, 110, 115, 116, 97, 108, 108, 101, 114];
    proof {
        assert(v@ =~= key_installer());
    }
    v
}

fn kb_implementation() -> (v: Vec<u8>)
    ensures
        v@ == key_implementation(),
{
    let v: Vec<u8> = vec![105u8, 109, 112, 108, 101, 109, 101, 110, 116, 97, 116, 105, 111, 110];
    proof {
        assert(v@ =~= key_implementation());
    }
    v
}

fn kb_system() -> (v: Vec<u8>)
    ensures
        v@ == key_system(),
{
    let v: Vec<u8> = vec![115u8, 121, 115, 116, 101, 109];
    proof {
        assert(v@ =~= key_system());
    }
    v
}

fn kb_distro() -> (v: Vec<u8>)
    ensures
        v@ == key_distro(),
{
    let v: Vec<u8> = vec![100u8, 105, 115, 116, 114, 111];
    proof {
        assert(v@ =~= key_distro());
    }
    v
}

fn kb_name() -> (v: Vec<u8>)
    ensures
        v@ == key_name(),
{
    let v: Vec<u8> = vec![110u8, 97, 109, 101];
    proof {
        assert(v@ =~= key_name());
    }
    v
}

fn kb_version() -> (v: Vec<u8>)
    ensures
        v@ == key_version(),
{
    let v: Vec<u8> = vec![118u8, 101, 114, 115, 105, 111, 110];
    proof {
        assert(v@ =~= key_version());
    }
    v
}

fn kb_release() -> (v: Vec<u8>)
    ensures
        v@ == key_release(),
{
    let v: Vec<u8> = vec![114u8, 101, 108, 101, 97, 115, 101];
    proof {
        assert(v@ =~= key_release());
    }
    v
}

fn kb_python() -> (v: Vec<u8>)
    ensures
        v@ == key_python(),
{
    let v: Vec<u8> = vec![112u8, 121, 116, 104, 111, 110];
    proof {
        assert(v@ =~= key_python());
    }
    v
}

fn kb_cpu() -> (v: Vec<u8>)
    ensures
        v@ == key_cpu(),
{
    let v: Vec<u8> = vec![99u8, 112, 117];
    proof {
        assert(v@ =~= key_cpu());
    }
    v
}

fn kb_ci() -> (v: Vec<u8>)
    ensures
        v@ == key_ci(),
{
    let v: Vec<u8> = vec![99u8, 105];
    proof {
        assert(v@ =~= key_ci());
    }
    v
}

fn kb_tls_protocol() -> (v: Vec<u8>)
    ensures
        v@ == key_tls_protocol(),
{
    let v: Vec<u8> = vec![116u8, 108, 115, 95, 112, 114, 111, 116, 111, 99, 111, 108];
    proof {
        assert(v@ =~= key_tls_protocol());
    }
    v
}

fn kb_openssl_version() -> (v: Vec<u8>)
    ensures
        v@ == key_openssl_version(),
{
    let v: Vec<u8> = vec![111u8, 112, 101, 110, 115, 115, 108, 95, 118, 101, 114, 115, 105, 111, 110];
    proof {
        assert(v@ =~= key_openssl_version());
    }
    v
}

fn kb_setuptools_version() -> (v: Vec<u8>)
    ensures
        v@ == key_setuptools_version(),
{
    let v: Vec<u8> = vec![
        115u8, 101, 116, 117, 112, 116, 111, 111, 108, 115, 95, 118, 101, 114, 115, 105, 111, 110,
    ];
    proof {
        assert(v@ =~= key_setuptools_version());
    }
    v
}

fn kb_true() -> (v: Vec<u8>)
    ensures
        v@ == word_true(),
{
    let v: Vec<u8> = vec![116u8, 114, 117, 101];
    proof {
        assert(v@ =~= word_true());
    }
    v
}

fn kb_false() -> (v: Vec<u8>)
    ensures
        v@ == word_false(),
{
    let v: Vec<u8> = vec![102u8, 97, 108, 115, 101];
    proof {
        assert(v@ =~= word_false());
    }
    v
}

fn kb_null() -> (v: Vec<u8>)
    ensures
        v@ == word_null(),
{
    let v: Vec<u8> = vec![110u8, 117, 108, 108];
    proof {
        assert(v@ =~= word_null());
    }
    v
}

fn word_at(s: &[u8], v: usize, w: &Vec<u8>) -> (r: bool)
    requires
        v <= s@.len(),
    ensures
        r == matches_at(s@, v as int, w@),
{
    if s.len() - v < w.len() {
        return false;
    }
    let piece = slice_subrange(s, v, v + w.len());
    bytes_eq(piece, w.as_slice())
}

fn apply_string_exec(m: ClientMetadata, key: &[u8], val: Vec<u8>) -> (r: ClientMetadata)
    ensures
        r@ == apply_string(m@, key@, val@),
{
    let mut m = m;
    if bytes_eq(key, kb_python().as_slice()) {
        m.implementation_version = Some(val);
    } else if bytes_eq(key, kb_cpu().as_slice()) {
        m.cpu = Some(val);
    } else if bytes_eq(key, kb_tls_protocol().as_slice()) {
        m.tls_protocol = Some(val);
    } else if bytes_eq(key, kb_openssl_version().as_slice()) {
        m.openssl_version = Some(val);
    } else if bytes_eq(key, kb_setuptools_version().as_slice()) {
        m.setuptools_version = Some(val);
    }
    m
}

fn apply_bool_exec(m: ClientMetadata, key: &[u8], b: bool) -> (r: ClientMetadata)
    ensures
        r@ == apply_bool(m@, key@, b),
{
    let mut m = m;
    if bytes_eq(key, kb_ci().as_slice()) {
        m.ci = Some(b);
    }
    m
}

fn apply_nested_exec(m: ClientMetadata, outer: &[u8], inner: &[u8], val: Vec<u8>) -> (r:
    ClientMetadata)
    ensures
        r@ == apply_nested(m@, outer@, inner@, val@),
{
    let mut m = m;
    if bytes_eq(outer, kb_installer().as_slice()) {
        if bytes_eq(inner, kb_name().as_slice()) {
            m.installer_name = Some(val);
        } else if bytes_eq(inner, kb_version().as_slice()) {
            m.installer_version = Some(val);
        }
    } else if bytes_eq(outer, kb_implementation().as_slice()) {
        if bytes_eq(inner, kb_name().as_slice()) {
            m.implementation_name = Some(val);
        } else if bytes_eq(inner, kb_version().as_slice()) {
            m.implementation_version = Some(val);
        }
    } else if bytes_eq(outer, kb_system().as_slice()) {
        if bytes_eq(inner, kb_name().as_slice()) {
            m.system_name = Some(val);
        } else if bytes_eq(inner, kb_release().as_slice()) {
            m.system_release = Some(val);
        }
    } else if bytes_eq(outer, kb_distro().as_slice()) {
        if bytes_eq(inner, kb_name().as_slice()) {
            m.distro_name = Some(val);
        } else if bytes_eq(inner, kb_version().as_slice()) {
            m.distro_version = Some(val);
        }
    }
    m
}

#[verifier::rlimit(60)]
#[verifier::spinoff_prover]
fn inner_pairs_exec(s: &[u8], i: usize, m: ClientMetadata, ka: usize, kb: usize) -> (r: Option<
    (usize, ClientMetadata),
>)
    requires
        ka <= kb <= s@.len(),
    ensures
        match r {
            Some(p) => parse_inner_pairs(s@, i as int, m@, s@.subrange(ka as int, kb as int))
                == Some((p.0 as int, p.1@)) && p.0 <= s@.len(),
            None => parse_inner_pairs(s@, i as int, m@, s@.subrange(ka as int, kb as int)) is None,
        },
    decreases s@.len() - i,
{
    let ghost outer = s@.subrange(ka as int, kb as int);
    if i >= s.len() || *slice_index_get(s, i) != QUOTE {
        return None;
    }
    let j = find_byte(s, i + 1, QUOTE);
    proof {
        crate::text::lemma_find_from(s@, i + 1, QUOTE);
    }
    if j >= s.len() {
        return None;
    }
    if j + 1 >= s.len() || *slice_index_get(s, j + 1) != COLON {
        return None;
    }
    let v = j + 2;
    let step: Option<(usize, ClientMetadata)> = if v < s.len() && *slice_index_get(s, v) == QUOTE {
        let w = find_byte(s, v + 1, QUOTE);
        proof {
            crate::text::lemma_find_from(s@, v + 1, QUOTE);
        }
        if w >= s.len() {
            None
        } else {
            let val = sub_vec(s, v + 1, w);
            let m2 = apply_nested_exec(
                m,
                slice_subrange(s, ka, kb),
                slice_subrange(s, i + 1, j),
                val,
            );
            Some((w + 1, m2))
        }
    } else {
        let wt = kb_true();
        let wf = kb_false();
        let wn = kb_null();
        if word_at(s, v, &wt) {
            Some((v + 4, m))
        } else if word_at(s, v, &wf) {
            Some((v + 5, m))
        } else if word_at(s, v, &wn) {
            Some((v + 4, m))
        } else {
            None
        }
    };
    match step {
        None => None,
        Some((e, m2)) => {
            if e <= i || e >= s.len() {
                return None;
            }
            let c = *slice_index_get(s, e);
            if c == COMMA {
                inner_pairs_exec(s, e + 1, m2, ka, kb)
            } else if c == RBRACE {
                Some((e + 1, m2))
            } else {
                None
            }
        },
    }
}

#[verifier::rlimit(60)]
#[verifier::spinoff_prover]
fn pairs_exec(s: &[u8], i: usize, m: ClientMetadata) -> (r: Option<(usize, ClientMetadata)>)
    ensures
        match r {
            Some(p) => parse_pairs(s@, i as int, m@) == Some((p.0 as int, p.1@)) && p.0
                <= s@.len(),
            None => parse_pairs(s@, i as int, m@) is None,
        },
    decreases s@.len() - i,
{
    if i >= s.len() || *slice_index_get(s, i) != QUOTE {
        return None;
    }
    let j = find_byte(s, i + 1, QUOTE);
    proof {
        crate::text::lemma_find_from(s@, i + 1, QUOTE);
    }
    if j >= s.len() {
        return None;
    }
    if j + 1 >= s.len() || *slice_index_get(s, j + 1) != COLON {
        return None;
    }
    let v = j + 2;
    let ghost key = s@.subrange(i + 1, j as int);
    let step: Option<(usize, ClientMetadata)> = if v < s.len() && *slice_index_get(s, v) == QUOTE {
        let w = find_byte(s, v + 1, QUOTE);
        proof {
            crate::text::lemma_find_from(s@, v + 1, QUOTE);
        }
        if w >= s.len() {
            None
        } else {
            let val = sub_vec(s, v + 1, w);
            let m2 = apply_string_exec(m, slice_subrange(s, i + 1, j), val);
            Some((w + 1, m2))
        }
    } else if v < s.len() && *slice_index_get(s, v) == LBRACE {
        inner_pairs_exec(s, v + 1, m, i + 1, j)
    } else {
        let wt = kb_true();
        let wf = kb_false();
        let wn = kb_null();
        if word_at(s, v, &wt) {
            Some((v + 4, apply_bool_exec(m, slice_subrange(s, i + 1, j), true)))
        } else if word_at(s, v, &wf) {
            Some((v + 5, apply_bool_exec(m, slice_subrange(s, i + 1, j), false)))
        } else if word_at(s, v, &wn) {
            Some((v + 4, m))
        } else {
            None
        }
    };
    proof {
        let ghost gstep = step;
        match gstep {
            Some(p) => {
                assert(parse_top_value(s@, v as int, m@, key) == Some((p.0 as int, p.1@)));
            },
            None => {
                assert(parse_top_value(s@, v as int, m@, key) is None);
            },
        }
    }
    match step {
        None => None,
        Some((e, m2)) => {
            if e <= i || e >= s.len() {
                return None;
            }
            let c = *slice_index_get(s, e);
            if c == COMMA {
                pairs_exec(s, e + 1, m2)
            } else if c == RBRACE {
                Some((e + 1, m2))
            } else {
                None
            }
        },
    }
}

fn structured_exec(s: &[u8]) -> (r: Option<ClientMetadata>)
    ensures
        match r {
            Some(m) => parse_structured(s@) == Some(m@),
            None => parse_structured(s@) is None,
        },
{
    let sp = find_byte(s, 0, SPACE);
    proof {
        crate::text::lemma_find_from(s@, 0, SPACE);
    }
    if sp >= s.len() {
        return None;
    }
    match nv_exec(s, 0, sp) {
        None => None,
        Some((name, ver)) => {
            if sp + 1 >= s.len() || *slice_index_get(s, sp + 1) != LBRACE {
                return None;
            }
            let mut m0 = ClientMetadata::empty();
            m0.installer_name = Some(name);
            m0.installer_version = Some(ver);
            match pairs_exec(s, sp + 2, m0) {
                None => None,
                Some((e, m)) => {
                    if e == s.len() {
                        Some(m)
                    } else {
                        None
                    }
                },
            }
        },
    }
}

/// One decoded client-identification string: structured metadata, or a drop
/// outcome.
pub enum Classification {
    Client(ClientMetadata),
    Ignored,
    Invalid,
}

/// Classifies a raw client-identification string.  Ignorable traffic is
/// recognized first, whatever else the string would parse as; then the
/// structured form, then the legacy compact form; anything else is invalid.
pub fn classify(s: &[u8]) -> (r: Classification)
    ensures
        match r {
            Classification::Client(m) => !is_ignorable(s@) && spec_classify_meta(s@) == Some(m@),
            Classification::Ignored => is_ignorable(s@),
            Classification::Invalid => !is_ignorable(s@) && spec_classify_meta(s@) is None,
        },
{
    if check_ignorable(s) {
        return Classification::Ignored;
    }
    match structured_exec(s) {
        Some(m) => Classification::Client(m),
        None => match legacy_exec(s) {
            Some(m) => Classification::Client(m),
            None => Classification::Invalid,
        },
    }
}

} // verus!
