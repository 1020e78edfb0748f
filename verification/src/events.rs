//! The event grammar parser: the free-text message of an envelope becomes a
//! download event, or fails with one of the three per-line outcomes.  The
//! message is a fixed sequence of single-space-separated request fields, the
//! last of which — the client identification — is quoted and consumes the
//! remainder of the line.  An ignorable client drops the line whatever the
//! other fields hold; otherwise a field that violates its required shape
//! fails the whole event, and only then is the client string decoded.

use vstd::prelude::*;
use crate::text::{
    all_digits, digits_in, digits_val, find_byte, find_from, lemma_digits_val_bound,
    lemma_find_from, lemma_pow10_3, lemma_pow10_mono, parse_digits, sub_vec, BACKSLASH, DASH,
    QUOTE, SLASH, SPACE,
};
use crate::ua::{
    classify, is_ignorable, lemma_empty_not_ignorable, matches_at, nv_pair_at, parse_legacy,
    parse_structured, spec_classify_meta, Classification, ClientMetadata, ClientModel,
};
use vstd::slice::{slice_index_get, slice_subrange};

verus! {

/// The terminal per-line outcomes; never retried and never raised.
#[derive(Clone, Copy, PartialEq, Eq, Structural, Debug)]
pub enum EventParseError {
    IgnoredUserAgent,
    InvalidUserAgent,
    Error,
}

/// Package identity resolved from a distribution request path.
pub struct Package {
    pub name: Vec<u8>,
    pub version: Vec<u8>,
    pub filename: Vec<u8>,
}

pub ghost struct PackageModel {
    pub name: Seq<u8>,
    pub version: Seq<u8>,
    pub filename: Seq<u8>,
}

impl View for Package {
    type V = PackageModel;

    open spec fn view(&self) -> PackageModel {
        PackageModel { name: self.name@, version: self.version@, filename: self.filename@ }
    }
}

/// One successfully classified download.  `occurred_at` is the envelope
/// timestamp of the request, filled by the pipeline driver; the event
/// grammar itself does not see the envelope.  The chosen token layout of
/// the message carries no client-address and no TLS-cipher position, so the
/// event holds exactly the request attributes the wire format carries.
pub struct Event {
    pub occurred_at: Option<Vec<u8>>,
    pub method: Vec<u8>,
    pub request_path: Vec<u8>,
    pub status_code: Option<u16>,
    pub bytes_sent: Option<u64>,
    pub referrer: Option<Vec<u8>>,
    pub tls_protocol: Option<Vec<u8>>,
    pub package: Option<Package>,
    pub client: ClientMetadata,
}

pub ghost struct EventModel {
    pub occurred_at: Option<Seq<u8>>,
    pub method: Seq<u8>,
    pub request_path: Seq<u8>,
    pub status_code: Option<u16>,
    pub bytes_sent: Option<u64>,
    pub referrer: Option<Seq<u8>>,
    pub tls_protocol: Option<Seq<u8>>,
    pub package: Option<PackageModel>,
    pub client: ClientModel,
}

impl View for Event {
    type V = EventModel;

    open spec fn view(&self) -> EventModel {
        EventModel {
            occurred_at: match self.occurred_at {
                Some(v) => Some(v@),
                None => None,
            },
            method: self.method@,
            request_path: self.request_path@,
            status_code: self.status_code,
            bytes_sent: self.bytes_sent,
            referrer: match self.referrer {
                Some(v) => Some(v@),
                None => None,
            },
            tls_protocol: match self.tls_protocol {
                Some(v) => Some(v@),
                None => None,
            },
            package: match self.package {
                Some(p) => Some(p@),
                None => None,
            },
            client: self.client@,
        }
    }
}

// ---------------------------------------------------------------------------
// Unescaping of the quoted client field: `\"` on the wire stands for `"`.

pub open spec fn unescape(s: Seq<u8>) -> Seq<u8>
    decreases s.len(),
{
    if s.len() == 0 {
        Seq::empty()
    } else if s.len() >= 2 && s[0] == BACKSLASH && s[1] == QUOTE {
        seq![QUOTE] + unescape(s.subrange(2, s.len() as int))
    } else {
        seq![s[0]] + unescape(s.subrange(1, s.len() as int))
    }
}

pub fn unescape_exec(s: &[u8]) -> (r: Vec<u8>)
    ensures
        r@ == unescape(s@),
{
    let mut out: Vec<u8> = Vec::new();
    let mut i: usize = 0;
    proof {
        assert(s@.subrange(0, s@.len() as int) =~= s@);
        assert(out@ + unescape(s@) =~= unescape(s@));
    }
    loop
        invariant
            0 <= i <= s@.len(),
            unescape(s@) == out@ + unescape(s@.subrange(i as int, s@.len() as int)),
        decreases s@.len() - i,
    {
        let ghost suffix = s@.subrange(i as int, s@.len() as int);
        if i == s.len() {
            assert(suffix =~= Seq::<u8>::empty());
            assert(out@ + unescape(suffix) =~= out@);
            return out;
        }
        assert(suffix[0] == s@[i as int]);
        let b = *slice_index_get(s, i);
        if b == BACKSLASH && i + 1 < s.len() && *slice_index_get(s, i + 1) == QUOTE {
            assert(suffix.len() >= 2 && suffix[1] == s@[i + 1]);
            out.push(QUOTE);
            proof {
                let rest = s@.subrange(i + 2, s@.len() as int);
                assert(suffix.subrange(2, suffix.len() as int) =~= rest);
                assert(unescape(suffix) == seq![QUOTE] + unescape(rest));
                assert((out@.drop_last() + (seq![QUOTE] + unescape(rest))) =~= (out@ + unescape(
                    rest,
                )));
            }
            i = i + 2;
        } else {
            assert(!(suffix.len() >= 2 && suffix[0] == BACKSLASH && suffix[1] == QUOTE)) by {
                if i + 1 < s@.len() {
                    assert(suffix[1] == s@[i + 1]);
                }
            }
            out.push(b);
            proof {
                let rest = s@.subrange(i + 1, s@.len() as int);
                assert(suffix.subrange(1, suffix.len() as int) =~= rest);
                assert(unescape(suffix) == seq![b] + unescape(rest));
                assert((out@.drop_last() + (seq![b] + unescape(rest))) =~= (out@ + unescape(
                    rest,
                )));
            }
            i = i + 1;
        }
    }
}

// ---------------------------------------------------------------------------
// Message tokenization and field shapes.

pub ghost struct MsgShape {
    pub method: Seq<u8>,
    pub path: Seq<u8>,
    pub status_tok: Seq<u8>,
    pub bytes_tok: Seq<u8>,
    pub referrer_tok: Seq<u8>,
    pub tls_tok: Seq<u8>,
    pub client_raw: Seq<u8>,
}

/// The fixed field structure of a message: six nonempty space-separated
/// tokens, then the quoted client identification consuming the rest.
pub open spec fn split_message(msg: Seq<u8>) -> Option<MsgShape> {
    let e1 = find_from(msg, 0, SPACE);
    if !(0 < e1 && e1 < msg.len()) {
        None
    } else {
        let e2 = find_from(msg, e1 + 1, SPACE);
        if !(e1 + 1 < e2 && e2 < msg.len()) {
            None
        } else {
            let e3 = find_from(msg, e2 + 1, SPACE);
            if !(e2 + 1 < e3 && e3 < msg.len()) {
                None
            } else {
                let e4 = find_from(msg, e3 + 1, SPACE);
                if !(e3 + 1 < e4 && e4 < msg.len()) {
                    None
                } else {
                    let e5 = find_from(msg, e4 + 1, SPACE);
                    if !(e4 + 1 < e5 && e5 < msg.len()) {
                        None
                    } else {
                        let e6 = find_from(msg, e5 + 1, SPACE);
                        if !(e5 + 1 < e6 && e6 < msg.len()) {
                            None
                        } else {
                            let cr = msg.subrange(e6 + 1, msg.len() as int);
                            if !(cr.len() >= 2 && cr[0] == QUOTE && cr[cr.len() - 1] == QUOTE) {
                                None
                            } else {
                                Some(
                                    MsgShape {
                                        method: msg.subrange(0, e1),
                                        path: msg.subrange(e1 + 1, e2),
                                        status_tok: msg.subrange(e2 + 1, e3),
                                        bytes_tok: msg.subrange(e3 + 1, e4),
                                        referrer_tok: msg.subrange(e4 + 1, e5),
                                        tls_tok: msg.subrange(e5 + 1, e6),
                                        client_raw: cr,
                                    },
                                )
                            }
                        }
                    }
                }
            }
        }
    }
}

/// The decoded client-identification string of a tokenized message: the
/// quoted remainder, quotes stripped and `\"` unescaped.
pub open spec fn client_of(sh: MsgShape) -> Seq<u8> {
    unescape(sh.client_raw.subrange(1, sh.client_raw.len() - 1))
}

pub open spec fn is_dash_tok(t: Seq<u8>) -> bool {
    t.len() == 1 && t[0] == DASH
}

/// The required shapes of the non-client fields: a path rooted at `/`, a
/// numeric (or absent) status code, a numeric (or absent) byte count.
pub open spec fn fields_valid(sh: MsgShape) -> bool {
    &&& sh.path.len() > 0 && sh.path[0] == SLASH
    &&& is_dash_tok(sh.status_tok) || (all_digits(sh.status_tok) && 1 <= sh.status_tok.len() <= 3)
    &&& is_dash_tok(sh.bytes_tok) || (all_digits(sh.bytes_tok) && 1 <= sh.bytes_tok.len() <= 18)
}

// ---------------------------------------------------------------------------
// Package identity from the request path.

/// "packages"
pub open spec fn seg_packages() -> Seq<u8> {
    seq![112u8, 97, 99, 107, 97, 103, 101, 115]
}

/// The package-distribution path pattern:
/// `/packages/<tag>/<shard>/<name>/<filename>` where the file name begins
/// with `<name>-<version>-`.  A path that does not match yields no package;
/// that is not an error.
pub open spec fn package_of(path: Seq<u8>) -> Option<PackageModel> {
    if !(path.len() > 0 && path[0] == SLASH) {
        None
    } else {
        let e1 = find_from(path, 1, SLASH);
        if !(e1 < path.len() && path.subrange(1, e1) == seg_packages()) {
            None
        } else {
            let e2 = find_from(path, e1 + 1, SLASH);
            if !(e1 + 1 < e2 && e2 < path.len()) {
                None
            } else {
                let e3 = find_from(path, e2 + 1, SLASH);
                if !(e2 + 1 < e3 && e3 < path.len()) {
                    None
                } else {
                    let e4 = find_from(path, e3 + 1, SLASH);
                    if !(e3 + 1 < e4 && e4 < path.len()) {
                        None
                    } else if find_from(path, e4 + 1, SLASH) != path.len() || e4 + 1
                        >= path.len() {
                        None
                    } else {
                        let name = path.subrange(e3 + 1, e4);
                        let fname = path.subrange(e4 + 1, path.len() as int);
                        if !(matches_at(path, e4 + 1, name) && e4 + 1 + name.len() < path.len()
                            && path[e4 + 1 + name.len()] == DASH) {
                            None
                        } else {
                            let vstart = e4 + 2 + name.len();
                            let vend = find_from(path, vstart as int, DASH);
                            if !(vstart < vend && vend < path.len()) {
                                None
                            } else {
                                Some(
                                    PackageModel {
                                        name,
                                        version: path.subrange(vstart as int, vend),
                                        filename: fname,
                                    },
                                )
                            }
                        }
                    }
                }
            }
        }
    }
}

fn pkg_seg_packages() -> (v: Vec<u8>)
    ensures
        v@ == seg_packages(),
{
    let v: Vec<u8> = vec![112u8, 97, 99, 107, 97, 103, 101, 115];
    proof {
        assert(v@ =~= seg_packages());
    }
    v
}

/// Resolves package identity from a request path; `None` exactly when the
/// path does not match the distribution pattern.
pub fn package_exec(path: &[u8]) -> (r: Option<Package>)
    ensures
        match r {
            Some(p) => package_of(path@) == Some(p@),
            None => package_of(path@) is None,
        },
{
    if path.len() == 0 || *slice_index_get(path, 0) != SLASH {
        return None;
    }
    let e1 = find_byte(path, 1, SLASH);
    proof {
        lemma_find_from(path@, 1, SLASH);
    }
    if e1 >= path.len() {
        return None;
    }
    let kp = pkg_seg_packages();
    if !crate::text::bytes_eq(slice_subrange(path, 1, e1), kp.as_slice()) {
        return None;
    }
    let e2 = find_byte(path, e1 + 1, SLASH);
    proof {
        lemma_find_from(path@, e1 + 1, SLASH);
    }
    if !(e1 + 1 < e2 && e2 < path.len()) {
        return None;
    }
    let e3 = find_byte(path, e2 + 1, SLASH);
    proof {
        lemma_find_from(path@, e2 + 1, SLASH);
    }
    if !(e2 + 1 < e3 && e3 < path.len()) {
        return None;
    }
    let e4 = find_byte(path, e3 + 1, SLASH);
    proof {
        lemma_find_from(path@, e3 + 1, SLASH);
    }
    if !(e3 + 1 < e4 && e4 < path.len()) {
        return None;
    }
    let e5 = find_byte(path, e4 + 1, SLASH);
    proof {
        lemma_find_from(path@, e4 + 1, SLASH);
    }
    if e5 != path.len() || e4 + 1 >= path.len() {
        return None;
    }
    let name_len = e4 - (e3 + 1);
    if path.len() - (e4 + 1) <= name_len {
        assert(!(e4 + 1 + name_len < path@.len()) || !matches_at(
            path@,
            e4 + 1,
            path@.subrange(e3 + 1, e4 as int),
        ));
        return None;
    }
    let name_sl = slice_subrange(path, e3 + 1, e4);
    let head_sl = slice_subrange(path, e4 + 1, e4 + 1 + name_len);
    if !crate::text::bytes_eq(head_sl, name_sl) {
        assert(!matches_at(path@, e4 + 1, path@.subrange(e3 + 1, e4 as int)));
        return None;
    }
    if *slice_index_get(path, e4 + 1 + name_len) != DASH {
        return None;
    }
    let vstart = e4 + 2 + name_len;
    let vend = find_byte(path, vstart, DASH);
    proof {
        lemma_find_from(path@, vstart as int, DASH);
    }
    if !(vstart < vend && vend < path.len()) {
        return None;
    }
    Some(
        Package {
            name: sub_vec(path, e3 + 1, e4),
            version: sub_vec(path, vstart, vend),
            filename: sub_vec(path, e4 + 1, path.len()),
        },
    )
}

// ---------------------------------------------------------------------------
// The whole event grammar, and its parser.

pub open spec fn make_event(sh: MsgShape, cm: ClientModel) -> EventModel {
    EventModel {
        occurred_at: None,
        method: sh.method,
        request_path: sh.path,
        status_code: if is_dash_tok(sh.status_tok) {
            None
        } else {
            Some(digits_val(sh.status_tok) as u16)
        },
        bytes_sent: if is_dash_tok(sh.bytes_tok) {
            None
        } else {
            Some(digits_val(sh.bytes_tok) as u64)
        },
        referrer: if is_dash_tok(sh.referrer_tok) {
            None
        } else {
            Some(sh.referrer_tok)
        },
        tls_protocol: if is_dash_tok(sh.tls_tok) {
            None
        } else {
            Some(sh.tls_tok)
        },
        package: package_of(sh.path),
        client: cm,
    }
}

/// The outcome of the event grammar on one message, as a mathematical
/// function: a tokenization failure is an error; an ignorable client drops
/// the line whatever else it holds; then a field-shape violation is an
/// error; then an unrecognized client is invalid, and a recognized one
/// yields the event.
pub open spec fn event_outcome(msg: Seq<u8>) -> Result<EventModel, EventParseError> {
    match split_message(msg) {
        None => Err(EventParseError::Error),
        Some(sh) => {
            let cl = client_of(sh);
            if is_ignorable(cl) {
                Err(EventParseError::IgnoredUserAgent)
            } else if !fields_valid(sh) {
                Err(EventParseError::Error)
            } else {
                match spec_classify_meta(cl) {
                    Some(cm) => Ok(make_event(sh, cm)),
                    None => Err(EventParseError::InvalidUserAgent),
                }
            }
        },
    }
}

impl Event {
    /// Decodes the message of an envelope into a download event, or the
    /// per-line outcome the message is dropped with.
    pub fn parse(msg: &[u8]) -> (r: Result<Event, EventParseError>)
        ensures
            match r {
                Ok(e) => event_outcome(msg@) == Ok::<EventModel, EventParseError>(e@),
                Err(err) => event_outcome(msg@) == Err::<EventModel, EventParseError>(err),
            },
    {
        let e1 = find_byte(msg, 0, SPACE);
        proof {
            lemma_find_from(msg@, 0, SPACE);
        }
        if !(0 < e1 && e1 < msg.len()) {
            return Err(EventParseError::Error);
        }
        let e2 = find_byte(msg, e1 + 1, SPACE);
        proof {
            lemma_find_from(msg@, e1 + 1, SPACE);
        }
        if !(e1 + 1 < e2 && e2 < msg.len()) {
            return Err(EventParseError::Error);
        }
        let e3 = find_byte(msg, e2 + 1, SPACE);
        proof {
            lemma_find_from(msg@, e2 + 1, SPACE);
        }
        if !(e2 + 1 < e3 && e3 < msg.len()) {
            return Err(EventParseError::Error);
        }
        let e4 = find_byte(msg, e3 + 1, SPACE);
        proof {
            lemma_find_from(msg@, e3 + 1, SPACE);
        }
        if !(e3 + 1 < e4 && e4 < msg.len()) {
            return Err(EventParseError::Error);
        }
        let e5 = find_byte(msg, e4 + 1, SPACE);
        proof {
            lemma_find_from(msg@, e4 + 1, SPACE);
        }
        if !(e4 + 1 < e5 && e5 < msg.len()) {
            return Err(EventParseError::Error);
        }
        let e6 = find_byte(msg, e5 + 1, SPACE);
        proof {
            lemma_find_from(msg@, e5 + 1, SPACE);
        }
        if !(e5 + 1 < e6 && e6 < msg.len()) {
            return Err(EventParseError::Error);
        }
        let ghost cr = msg@.subrange(e6 + 1, msg@.len() as int);
        if msg.len() - (e6 + 1) < 2 || *slice_index_get(msg, e6 + 1) != QUOTE || *slice_index_get(
            msg,
            msg.len() - 1,
        ) != QUOTE {
            proof {
                if cr.len() >= 2 {
                    assert(cr[0] == msg@[e6 + 1]);
                    assert(cr[cr.len() - 1] == msg@[msg@.len() - 1]);
                }
            }
            return Err(EventParseError::Error);
        }
        assert(cr[0] == msg@[e6 + 1] && cr[cr.len() - 1] == msg@[msg@.len() - 1]);
        let ghost sh = split_message(msg@)->Some_0;
        assert(split_message(msg@) == Some(sh));
        let cl = unescape_exec(slice_subrange(msg, e6 + 2, msg.len() - 1));
        proof {
            assert(cr.subrange(1, cr.len() - 1) =~= msg@.subrange(e6 + 2, msg@.len() - 1));
            assert(cl@ == client_of(sh));
        }
        match classify(cl.as_slice()) {
            Classification::Ignored => Err(EventParseError::IgnoredUserAgent),
            Classification::Client(cm) => {
                if !Self::fields_check(msg, e1, e2, e3, e4, Ghost(sh)) {
                    return Err(EventParseError::Error);
                }
                Ok(Self::build_event(msg, e1, e2, e3, e4, e5, e6, cm, Ghost(sh)))
            },
            Classification::Invalid => {
                if !Self::fields_check(msg, e1, e2, e3, e4, Ghost(sh)) {
                    return Err(EventParseError::Error);
                }
                Err(EventParseError::InvalidUserAgent)
            },
        }
    }

    fn fields_check(msg: &[u8], e1: usize, e2: usize, e3: usize, e4: usize, Ghost(sh): Ghost<
        MsgShape,
    >) -> (r: bool)
        requires
            split_message(msg@) == Some(sh),
            e1 == find_from(msg@, 0, SPACE),
            e2 == find_from(msg@, e1 + 1, SPACE),
            e3 == find_from(msg@, e2 + 1, SPACE),
            e4 == find_from(msg@, e3 + 1, SPACE),
        ensures
            r == fields_valid(sh),
    {
        proof {
            lemma_find_from(msg@, 0, SPACE);
            lemma_find_from(msg@, e1 + 1, SPACE);
            lemma_find_from(msg@, e2 + 1, SPACE);
            lemma_find_from(msg@, e3 + 1, SPACE);
            assert(sh.path == msg@.subrange(e1 + 1, e2 as int));
            assert(sh.status_tok == msg@.subrange(e2 + 1, e3 as int));
            assert(sh.bytes_tok == msg@.subrange(e3 + 1, e4 as int));
            assert(sh.path[0] == msg@[e1 + 1]);
        }
        if *slice_index_get(msg, e1 + 1) != SLASH {
            return false;
        }
        let status_dash = e3 == e2 + 2 && *slice_index_get(msg, e2 + 1) == DASH;
        proof {
            assert(sh.status_tok.len() == e3 - (e2 + 1));
            if sh.status_tok.len() == 1 {
                assert(sh.status_tok[0] == msg@[e2 + 1]);
            }
        }
        if !status_dash {
            if e3 - (e2 + 1) > 3 || !digits_in(msg, e2 + 1, e3) {
                return false;
            }
        }
        let bytes_dash = e4 == e3 + 2 && *slice_index_get(msg, e3 + 1) == DASH;
        proof {
            assert(sh.bytes_tok.len() == e4 - (e3 + 1));
            if sh.bytes_tok.len() == 1 {
                assert(sh.bytes_tok[0] == msg@[e3 + 1]);
            }
        }
        if !bytes_dash {
            if e4 - (e3 + 1) > 18 || !digits_in(msg, e3 + 1, e4) {
                return false;
            }
        }
        true
    }

    #[verifier::rlimit(60)]
    fn build_event(
        msg: &[u8],
        e1: usize,
        e2: usize,
        e3: usize,
        e4: usize,
        e5: usize,
        e6: usize,
        cm: ClientMetadata,
        Ghost(sh): Ghost<MsgShape>,
    ) -> (r: Event)
        requires
            split_message(msg@) == Some(sh),
            fields_valid(sh),
            e1 == find_from(msg@, 0, SPACE),
            e2 == find_from(msg@, e1 + 1, SPACE),
            e3 == find_from(msg@, e2 + 1, SPACE),
            e4 == find_from(msg@, e3 + 1, SPACE),
            e5 == find_from(msg@, e4 + 1, SPACE),
            e6 == find_from(msg@, e5 + 1, SPACE),
        ensures
            r@ == make_event(sh, cm@),
    {
        proof {
            lemma_find_from(msg@, 0, SPACE);
            lemma_find_from(msg@, e1 + 1, SPACE);
            lemma_find_from(msg@, e2 + 1, SPACE);
            lemma_find_from(msg@, e3 + 1, SPACE);
            lemma_find_from(msg@, e4 + 1, SPACE);
            lemma_find_from(msg@, e5 + 1, SPACE);
            assert(sh.status_tok == msg@.subrange(e2 + 1, e3 as int));
            assert(sh.bytes_tok == msg@.subrange(e3 + 1, e4 as int));
            if sh.status_tok.len() == 1 {
                assert(sh.status_tok[0] == msg@[e2 + 1]);
            }
            if sh.bytes_tok.len() == 1 {
                assert(sh.bytes_tok[0] == msg@[e3 + 1]);
            }
        }
        let status_dash = e3 == e2 + 2 && *slice_index_get(msg, e2 + 1) == DASH;
        let status_code = if status_dash {
            None
        } else {
            proof {
                lemma_digits_val_bound(sh.status_tok);
                lemma_pow10_mono(sh.status_tok.len() as nat, 3);
                lemma_pow10_3();
            }
            Some(parse_digits(msg, e2 + 1, e3) as u16)
        };
        let bytes_dash = e4 == e3 + 2 && *slice_index_get(msg, e3 + 1) == DASH;
        let bytes_sent = if bytes_dash {
            None
        } else {
            Some(parse_digits(msg, e3 + 1, e4))
        };
        let referrer_dash = e5 == e4 + 2 && *slice_index_get(msg, e4 + 1) == DASH;
        proof {
            assert(sh.referrer_tok == msg@.subrange(e4 + 1, e5 as int));
            if sh.referrer_tok.len() == 1 {
                assert(sh.referrer_tok[0] == msg@[e4 + 1]);
            }
            assert(sh.tls_tok == msg@.subrange(e5 + 1, e6 as int));
            if sh.tls_tok.len() == 1 {
                assert(sh.tls_tok[0] == msg@[e5 + 1]);
            }
        }
        let referrer = if referrer_dash {
            None
        } else {
            Some(sub_vec(msg, e4 + 1, e5))
        };
        let tls_dash = e6 == e5 + 2 && *slice_index_get(msg, e5 + 1) == DASH;
        let tls_protocol = if tls_dash {
            None
        } else {
            Some(sub_vec(msg, e5 + 1, e6))
        };
        let package = package_exec(slice_subrange(msg, e1 + 1, e2));
        Event {
            occurred_at: None,
            method: sub_vec(msg, 0, e1),
            request_path: sub_vec(msg, e1 + 1, e2),
            status_code,
            bytes_sent,
            referrer,
            tls_protocol,
            package,
            client: cm,
        }
    }
}

// ---------------------------------------------------------------------------
// Laws of the error taxonomy.

/// A client-identification field matching a known ignorable pattern drops
/// the line as ignored traffic, whatever the other fields hold.
pub proof fn lemma_ignorable_client_wins(msg: Seq<u8>, sh: MsgShape)
    requires
        split_message(msg) == Some(sh),
        is_ignorable(client_of(sh)),
    ensures
        event_outcome(msg) == Err::<EventModel, EventParseError>(
            EventParseError::IgnoredUserAgent,
        ),
{
}

/// A message whose non-client fields are well shaped and whose client
/// string is not ignorable and matches no known grammar is invalid traffic,
/// never a data-quality error.
pub proof fn lemma_unknown_client_invalid(msg: Seq<u8>, sh: MsgShape)
    requires
        split_message(msg) == Some(sh),
        fields_valid(sh),
        !is_ignorable(client_of(sh)),
        spec_classify_meta(client_of(sh)) is None,
    ensures
        event_outcome(msg) == Err::<EventModel, EventParseError>(
            EventParseError::InvalidUserAgent,
        ),
{
}

/// The empty client string in particular is invalid, never an error.
pub proof fn lemma_empty_client_invalid(msg: Seq<u8>, sh: MsgShape)
    requires
        split_message(msg) == Some(sh),
        fields_valid(sh),
        client_of(sh).len() == 0,
    ensures
        event_outcome(msg) == Err::<EventModel, EventParseError>(
            EventParseError::InvalidUserAgent,
        ),
{
    let cl = client_of(sh);
    lemma_empty_not_ignorable(cl);
    assert(find_from(cl, 0, SPACE) == 0);
    assert(parse_structured(cl) is None);
    assert(nv_pair_at(cl, 0, 0) is None);
    assert(parse_legacy(cl) is None);
}

/// A non-client field that violates its required shape fails the whole
/// event with an error, independent of what the client field holds, as long
/// as the client is not recognized ignorable traffic.
pub proof fn lemma_malformed_field_errors(msg: Seq<u8>, sh: MsgShape)
    requires
        split_message(msg) == Some(sh),
        !is_ignorable(client_of(sh)),
        !fields_valid(sh),
    ensures
        event_outcome(msg) == Err::<EventModel, EventParseError>(EventParseError::Error),
{
}

} // verus!
