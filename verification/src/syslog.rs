//! The frame parser: one line of text is decoded into a syslog envelope,
//! a fixed sequence of single-space-separated header tokens followed by the
//! free-text message.  A line whose priority token is not bracketed in angle
//! delimiters and numeric, or any of whose header tokens fails its own
//! micro-grammar, is rejected whole: no partial envelope is ever produced.

use vstd::prelude::*;
use crate::text::{
    all_digits, dec_digits, digits_in, digits_val, find_byte, find_from, is_canon_digits,
    is_digit, lemma_canon_digits_dec, lemma_digits_val_bound, lemma_find_from, lemma_pow10_3,
    parse_digits, pow10, sub_vec, COLON, DASH, DIGIT0, GT, LT, SPACE, TEE, ZED,
};
use vstd::slice::slice_index_get;

verus! {

/// One framed log record: the header fields and the free-text message.
/// A header field that is absent on the wire is held as its sentinel token,
/// never dropped.  `version` is the one optional token; absence is the empty
/// token.
pub struct SyslogMessage {
    pub priority: u16,
    pub version: Vec<u8>,
    pub timestamp: Vec<u8>,
    pub hostname: Vec<u8>,
    pub app_name: Vec<u8>,
    pub process_id: Vec<u8>,
    pub message_id: Vec<u8>,
    pub message: Vec<u8>,
}

pub ghost struct SyslogModel {
    pub priority: u16,
    pub version: Seq<u8>,
    pub timestamp: Seq<u8>,
    pub hostname: Seq<u8>,
    pub app_name: Seq<u8>,
    pub process_id: Seq<u8>,
    pub message_id: Seq<u8>,
    pub message: Seq<u8>,
}

impl View for SyslogMessage {
    type V = SyslogModel;

    open spec fn view(&self) -> SyslogModel {
        SyslogModel {
            priority: self.priority,
            version: self.version@,
            timestamp: self.timestamp@,
            hostname: self.hostname@,
            app_name: self.app_name@,
            process_id: self.process_id@,
            message_id: self.message_id@,
            message: self.message@,
        }
    }
}

/// A recognized timestamp: `YYYY-MM-DDThh:mm:ssZ`.
pub open spec fn ts_shape(ts: Seq<u8>) -> bool {
    &&& ts.len() == 20
    &&& is_digit(ts[0])
    &&& is_digit(ts[1])
    &&& is_digit(ts[2])
    &&& is_digit(ts[3])
    &&& ts[4] == DASH
    &&& is_digit(ts[5])
    &&& is_digit(ts[6])
    &&& ts[7] == DASH
    &&& is_digit(ts[8])
    &&& is_digit(ts[9])
    &&& ts[10] == TEE
    &&& is_digit(ts[11])
    &&& is_digit(ts[12])
    &&& ts[13] == COLON
    &&& is_digit(ts[14])
    &&& is_digit(ts[15])
    &&& ts[16] == COLON
    &&& is_digit(ts[17])
    &&& is_digit(ts[18])
    &&& ts[19] == ZED
}

/// The timestamp field: a recognized timestamp or the absence sentinel `-`.
pub open spec fn is_ts_token(ts: Seq<u8>) -> bool {
    (ts.len() == 1 && ts[0] == DASH) || ts_shape(ts)
}

/// The process-id field: numeric or the absence sentinel `-`.
pub open spec fn is_pid_token(p: Seq<u8>) -> bool {
    (p.len() == 1 && p[0] == DASH) || (p.len() > 0 && all_digits(p))
}

/// A well-delimited, numeric, canonically written priority prefix:
/// `<` then one to three digits with no leading zero, then `>`.
pub open spec fn has_valid_priority(line: Seq<u8>) -> bool {
    &&& line.len() > 0
    &&& line[0] == LT
    &&& {
        let g = find_from(line, 1, GT);
        &&& g < line.len()
        &&& 2 <= g <= 4
        &&& is_canon_digits(line.subrange(1, g))
    }
}

/// The header tokens after the priority and optional version: timestamp,
/// hostname, app-name, process-id, message-id, each followed by one space;
/// everything after the space that closes the message-id is the message.
pub open spec fn parse_tail(line: Seq<u8>, start: int, priority: u16, version: Seq<u8>) -> Option<
    SyslogModel,
>
    recommends
        0 <= start <= line.len(),
{
    let tsend = find_from(line, start, SPACE);
    let ts = line.subrange(start, tsend);
    if !(tsend < line.len() && is_ts_token(ts)) {
        None
    } else {
        let hend = find_from(line, tsend + 1, SPACE);
        let host = line.subrange(tsend + 1, hend);
        if !(hend < line.len() && host.len() > 0) {
            None
        } else {
            let aend = find_from(line, hend + 1, SPACE);
            let app = line.subrange(hend + 1, aend);
            if !(aend < line.len() && app.len() > 0) {
                None
            } else {
                let pend = find_from(line, aend + 1, SPACE);
                let pid = line.subrange(aend + 1, pend);
                if !(pend < line.len() && is_pid_token(pid)) {
                    None
                } else {
                    let mend = find_from(line, pend + 1, SPACE);
                    let msgid = line.subrange(pend + 1, mend);
                    if !(mend < line.len() && msgid.len() > 0) {
                        None
                    } else {
                        Some(
                            SyslogModel {
                                priority,
                                version,
                                timestamp: ts,
                                hostname: host,
                                app_name: app,
                                process_id: pid,
                                message_id: msgid,
                                message: line.subrange(mend + 1, line.len() as int),
                            },
                        )
                    }
                }
            }
        }
    }
}

/// The whole envelope grammar, as a mathematical function of the line.
pub open spec fn parse_envelope(line: Seq<u8>) -> Option<SyslogModel> {
    if !has_valid_priority(line) {
        None
    } else {
        let g = find_from(line, 1, GT);
        let priority = digits_val(line.subrange(1, g)) as u16;
        let t1end = find_from(line, g + 1, SPACE);
        let t1 = line.subrange(g + 1, t1end);
        if 1 <= t1.len() <= 2 && all_digits(t1) {
            if t1end < line.len() {
                parse_tail(line, t1end + 1, priority, t1)
            } else {
                None
            }
        } else {
            parse_tail(line, g + 1, priority, Seq::empty())
        }
    }
}

/// What one envelope looks like on the wire.
pub open spec fn render_envelope(m: SyslogModel) -> Seq<u8> {
    seq![LT] + dec_digits(m.priority as nat) + seq![GT] + (if m.version.len() > 0 {
        m.version + seq![SPACE]
    } else {
        Seq::empty()
    }) + m.timestamp + seq![SPACE] + m.hostname + seq![SPACE] + m.app_name + seq![SPACE]
        + m.process_id + seq![SPACE] + m.message_id + seq![SPACE] + m.message
}

/// A line with a priority token that is missing a delimiter, empty, not
/// numeric, or not canonically written never yields an envelope.
pub proof fn lemma_priority_rejected(line: Seq<u8>)
    requires
        !has_valid_priority(line),
    ensures
        parse_envelope(line) is None,
{
}

impl SyslogMessage {
    /// Decodes one line into an envelope; `None` exactly when the line does
    /// not satisfy the envelope grammar.
    pub fn parse(line: &[u8]) -> (r: Option<SyslogMessage>)
        ensures
            match r {
                Some(m) => parse_envelope(line@) == Some(m@),
                None => parse_envelope(line@) is None,
            },
    {
        if line.len() == 0 || *slice_index_get(line, 0) != LT {
            return None;
        }
        let g = find_byte(line, 1, GT);
        proof {
            lemma_find_from(line@, 1, GT);
        }
        if g >= line.len() || g < 2 || g > 4 {
            return None;
        }
        if !digits_in(line, 1, g) {
            return None;
        }
        if g > 2 && *slice_index_get(line, 1) == DIGIT0 {
            return None;
        }
        let ghost pri_digits = line@.subrange(1, g as int);
        proof {
            assert(pri_digits[0] == line@[1]);
            assert(is_canon_digits(pri_digits));
            lemma_digits_val_bound(pri_digits);
            lemma_pow10_3();
            assert(pow10(pri_digits.len() as nat) <= pow10(3)) by {
                crate::text::lemma_pow10_mono(pri_digits.len() as nat, 3);
            }
        }
        let priority = parse_digits(line, 1, g) as u16;
        let t1end = find_byte(line, g + 1, SPACE);
        proof {
            lemma_find_from(line@, g + 1, SPACE);
        }
        let t1_len = t1end - (g + 1);
        let ghost t1 = line@.subrange(g + 1, t1end as int);
        let version_like = 1 <= t1_len && t1_len <= 2 && digits_in(line, g + 1, t1end);
        if version_like {
            if t1end >= line.len() {
                return None;
            }
            let version = sub_vec(line, g + 1, t1end);
            Self::parse_tail_exec(line, t1end + 1, priority, version)
        } else {
            let version = Vec::new();
            assert(version@ =~= Seq::<u8>::empty());
            Self::parse_tail_exec(line, g + 1, priority, version)
        }
    }

    fn parse_tail_exec(line: &[u8], start: usize, priority: u16, version: Vec<u8>) -> (r: Option<
        SyslogMessage,
    >)
        requires
            start <= line@.len(),
        ensures
            match r {
                Some(m) => parse_tail(line@, start as int, priority, version@) == Some(m@),
                None => parse_tail(line@, start as int, priority, version@) is None,
            },
    {
        let tsend = find_byte(line, start, SPACE);
        proof {
            lemma_find_from(line@, start as int, SPACE);
        }
        if tsend >= line.len() {
            return None;
        }
        if !Self::ts_token_check(line, start, tsend) {
            return None;
        }
        let hend = find_byte(line, tsend + 1, SPACE);
        proof {
            lemma_find_from(line@, tsend + 1, SPACE);
        }
        if hend >= line.len() || hend == tsend + 1 {
            return None;
        }
        let aend = find_byte(line, hend + 1, SPACE);
        proof {
            lemma_find_from(line@, hend + 1, SPACE);
        }
        if aend >= line.len() || aend == hend + 1 {
            return None;
        }
        let pend = find_byte(line, aend + 1, SPACE);
        proof {
            lemma_find_from(line@, aend + 1, SPACE);
        }
        if pend >= line.len() {
            return None;
        }
        let ghost pid_tok = line@.subrange(aend + 1, pend as int);
        let pid_is_dash = pend == aend + 2 && *slice_index_get(line, aend + 1) == DASH;
        proof {
            if pid_is_dash {
                assert(pid_tok.len() == 1 && pid_tok[0] == line@[aend + 1]);
            }
        }
        if !pid_is_dash {
            if pend == aend + 1 || !digits_in(line, aend + 1, pend) {
                proof {
                    if pid_tok.len() == 1 && pid_tok[0] == DASH {
                        assert(line@[aend + 1] == DASH);
                    }
                }
                return None;
            }
        }
        let mend = find_byte(line, pend + 1, SPACE);
        proof {
            lemma_find_from(line@, pend + 1, SPACE);
        }
        if mend >= line.len() || mend == pend + 1 {
            return None;
        }
        Some(
            SyslogMessage {
                priority,
                version,
                timestamp: sub_vec(line, start, tsend),
                hostname: sub_vec(line, tsend + 1, hend),
                app_name: sub_vec(line, hend + 1, aend),
                process_id: sub_vec(line, aend + 1, pend),
                message_id: sub_vec(line, pend + 1, mend),
                message: sub_vec(line, mend + 1, line.len()),
            },
        )
    }

    fn ts_token_check(s: &[u8], from: usize, to: usize) -> (r: bool)
        requires
            from <= to <= s@.len(),
        ensures
            r == is_ts_token(s@.subrange(from as int, to as int)),
    {
        let ghost ts = s@.subrange(from as int, to as int);
        let n = to - from;
        if n == 1 && *slice_index_get(s, from) == DASH {
            assert(ts[0] == s@[from as int]);
            return true;
        }
        if n != 20 {
            return false;
        }
        proof {
            assert forall|k: int| 0 <= k < 20 implies ts[k] == s@[from + k] by {}
        }
        let r = Self::digit_at(s, from) && Self::digit_at(s, from + 1) && Self::digit_at(
            s,
            from + 2,
        ) && Self::digit_at(s, from + 3) && *slice_index_get(s, from + 4) == DASH && Self::digit_at(
            s,
            from + 5,
        ) && Self::digit_at(s, from + 6) && *slice_index_get(s, from + 7) == DASH && Self::digit_at(
            s,
            from + 8,
        ) && Self::digit_at(s, from + 9) && *slice_index_get(s, from + 10) == TEE && Self::digit_at(
            s,
            from + 11,
        ) && Self::digit_at(s, from + 12) && *slice_index_get(s, from + 13) == COLON
            && Self::digit_at(s, from + 14) && Self::digit_at(s, from + 15) && *slice_index_get(
            s,
            from + 16,
        ) == COLON && Self::digit_at(s, from + 17) && Self::digit_at(s, from + 18)
            && *slice_index_get(s, from + 19) == ZED;
        r
    }

    fn digit_at(s: &[u8], i: usize) -> (r: bool)
        requires
            i < s@.len(),
        ensures
            r == is_digit(s@[i as int]),
    {
        let b = *slice_index_get(s, i);
        48 <= b && b <= 57
    }
}

/// Re-serializing the header fields and the message of any parsed envelope
/// reconstructs the original line exactly: no header field consumes a
/// character that belongs to the message, and none is lost.
#[verifier::rlimit(100)]
#[verifier::spinoff_prover]
pub proof fn lemma_envelope_round_trip(line: Seq<u8>, m: SyslogModel)
    requires
        parse_envelope(line) == Some(m),
    ensures
        render_envelope(m) == line,
{
    let g = find_from(line, 1, GT);
    lemma_find_from(line, 1, GT);
    let pri = line.subrange(1, g);
    lemma_canon_digits_dec(pri);
    lemma_digits_val_bound(pri);
    lemma_pow10_3();
    crate::text::lemma_pow10_mono(pri.len() as nat, 3);
    assert(digits_val(pri) < 1000);
    assert(m.priority == digits_val(pri) as u16);
    assert(dec_digits(m.priority as nat) =~= pri);

    let t1end = find_from(line, g + 1, SPACE);
    let t1 = line.subrange(g + 1, t1end);
    lemma_find_from(line, g + 1, SPACE);
    let tstart: int = if 1 <= t1.len() <= 2 && all_digits(t1) {
        t1end + 1
    } else {
        g + 1
    };
    assert(parse_tail(line, tstart, m.priority, m.version) == Some(m));

    let tsend = find_from(line, tstart, SPACE);
    lemma_find_from(line, tstart, SPACE);
    let hend = find_from(line, tsend + 1, SPACE);
    lemma_find_from(line, tsend + 1, SPACE);
    let aend = find_from(line, hend + 1, SPACE);
    lemma_find_from(line, hend + 1, SPACE);
    let pend = find_from(line, aend + 1, SPACE);
    lemma_find_from(line, aend + 1, SPACE);
    let mend = find_from(line, pend + 1, SPACE);
    lemma_find_from(line, pend + 1, SPACE);

    assert(m.timestamp == line.subrange(tstart, tsend));
    assert(m.hostname == line.subrange(tsend + 1, hend));
    assert(m.app_name == line.subrange(hend + 1, aend));
    assert(m.process_id == line.subrange(aend + 1, pend));
    assert(m.message_id == line.subrange(pend + 1, mend));
    assert(m.message == line.subrange(mend + 1, line.len() as int));

    let a = seq![LT] + dec_digits(m.priority as nat);
    assert(a =~= line.subrange(0, g));
    let b = a + seq![GT];
    assert(line[g] == GT);
    assert(b =~= line.subrange(0, g + 1));
    let c = b + (if m.version.len() > 0 {
        m.version + seq![SPACE]
    } else {
        Seq::<u8>::empty()
    });
    assert(c =~= line.subrange(0, tstart)) by {
        if 1 <= t1.len() <= 2 && all_digits(t1) {
            assert(m.version == t1);
            assert(t1end < line.len());
            assert(line[t1end] == SPACE);
            assert(m.version.len() > 0);
        } else {
            assert(m.version.len() == 0);
        }
    }
    let d = c + m.timestamp;
    assert(d =~= line.subrange(0, tsend));
    let e = d + seq![SPACE];
    assert(line[tsend] == SPACE);
    assert(e =~= line.subrange(0, tsend + 1));
    let f = e + m.hostname;
    assert(f =~= line.subrange(0, hend));
    let h = f + seq![SPACE];
    assert(line[hend] == SPACE);
    assert(h =~= line.subrange(0, hend + 1));
    let i = h + m.app_name;
    assert(i =~= line.subrange(0, aend));
    let j = i + seq![SPACE];
    assert(line[aend] == SPACE);
    assert(j =~= line.subrange(0, aend + 1));
    let k = j + m.process_id;
    assert(k =~= line.subrange(0, pend));
    let l = k + seq![SPACE];
    assert(line[pend] == SPACE);
    assert(l =~= line.subrange(0, pend + 1));
    let n = l + m.message_id;
    assert(n =~= line.subrange(0, mend));
    let o = n + seq![SPACE];
    assert(line[mend] == SPACE);
    assert(o =~= line.subrange(0, mend + 1));
    let p = o + m.message;
    assert(p =~= line.subrange(0, line.len() as int));
    assert(p =~= line);
    assert(render_envelope(m) == p);
}

} // verus!
