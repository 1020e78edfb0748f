//! Ingestion front-end for compressed syslog streams of CDN download logs.
//!
//! The library decodes one log line at a time: a syslog envelope parser
//! extracts the free-text message, an event grammar parser decomposes the
//! message into a download event, and a user-agent classifier turns the
//! client-identification field into structured installer metadata.  Malformed
//! lines never abort the stream: each line yields either one event or one
//! classified diagnostic.  Only a failure to decompress the container is
//! fatal to an invocation.

use vstd::prelude::*;

pub mod events;
pub mod syslog;
pub mod text;
pub mod ua;

use crate::events::{event_outcome, is_dash_tok, Event, EventModel, EventParseError};
use crate::syslog::{parse_envelope, SyslogMessage};
use crate::text::{find_byte, find_from, lemma_find_from, sub_vec, DASH, NEWLINE};
use vstd::slice::slice_to_vec;
use vstd::utf8::valid_utf8;

verus! {

/// Rendering style for the process-wide diagnostic sink.
pub enum LogStyle {
    JSON,
    Readable,
}

/// The category a dropped line is reported under.  The first three mirror
/// the per-line outcomes; a line that is not valid text is dropped with a
/// warning before any parser runs.
#[derive(Clone, Copy, PartialEq, Eq, Structural, Debug)]
pub enum DiagKind {
    Error,
    IgnoredUserAgent,
    InvalidUserAgent,
    InvalidEncoding,
}

/// One structured diagnostic record: the outcome category and the raw line,
/// kept verbatim for offline audit.
pub struct Diagnostic {
    pub kind: DiagKind,
    pub line: Vec<u8>,
}

pub ghost struct DiagModel {
    pub kind: DiagKind,
    pub line: Seq<u8>,
}

impl View for Diagnostic {
    type V = DiagModel;

    open spec fn view(&self) -> DiagModel {
        DiagModel { kind: self.kind, line: self.line@ }
    }
}

pub open spec fn diag_of_err(e: EventParseError) -> DiagKind {
    match e {
        EventParseError::Error => DiagKind::Error,
        EventParseError::IgnoredUserAgent => DiagKind::IgnoredUserAgent,
        EventParseError::InvalidUserAgent => DiagKind::InvalidUserAgent,
    }
}

/// The outcome of the full per-line pipeline: envelope grammar, then event
/// grammar on the envelope's message.
pub open spec fn line_outcome(line: Seq<u8>) -> Result<EventModel, EventParseError> {
    match parse_envelope(line) {
        None => Err(EventParseError::Error),
        Some(env) => match event_outcome(env.message) {
            Ok(e) => Ok(
                EventModel {
                    occurred_at: if is_dash_tok(env.timestamp) {
                        None
                    } else {
                        Some(env.timestamp)
                    },
                    ..e
                },
            ),
            Err(err) => Err(err),
        },
    }
}

/// The events and diagnostics the driver owes for the lines from index `i`
/// on: zero or one event per line, one diagnostic per dropped line, and
/// nothing at all for a zero-length line.
pub open spec fn run_lines(lines: Seq<Seq<u8>>, i: int) -> (Seq<EventModel>, Seq<DiagModel>)
    decreases lines.len() - i,
{
    if !(0 <= i < lines.len()) {
        (Seq::empty(), Seq::empty())
    } else {
        let rest = run_lines(lines, i + 1);
        let l = lines[i];
        if l.len() == 0 {
            rest
        } else if !valid_utf8(l) {
            (rest.0, seq![DiagModel { kind: DiagKind::InvalidEncoding, line: l }] + rest.1)
        } else {
            match line_outcome(l) {
                Ok(e) => (seq![e] + rest.0, rest.1),
                Err(err) => (rest.0, seq![DiagModel { kind: diag_of_err(err), line: l }] + rest.1),
            }
        }
    }
}

/// A zero-length line is discarded before any parser runs: it contributes
/// neither an event nor a diagnostic.
pub proof fn lemma_empty_line_no_output(lines: Seq<Seq<u8>>, i: int)
    requires
        0 <= i < lines.len(),
        lines[i].len() == 0,
    ensures
        run_lines(lines, i) == run_lines(lines, i + 1),
{
}

/// Relies on core::str::from_utf8, which accepts exactly the valid UTF-8
/// byte sequences.
#[verifier::external_body]
fn utf8_ok(line: &[u8]) -> (r: bool)
    ensures
        r == valid_utf8(line@),
{
    core::str::from_utf8(line).is_ok()
}

fn copy_line(line: &Vec<u8>) -> (r: Vec<u8>)
    ensures
        r@ == line@,
{
    slice_to_vec(line.as_slice())
}

/// The pipeline driver: applies the frame parser and then the event grammar
/// parser to every line, in input order, and never fails on a bad line.
/// Each line yields exactly one event or, when dropped, exactly one
/// diagnostic — except a zero-length line, which is discarded before any
/// parser runs and yields no diagnostic at all.
#[verifier::rlimit(100)]
#[verifier::spinoff_prover]
pub fn process(lines: &Vec<Vec<u8>>) -> (r: (Vec<Event>, Vec<Diagnostic>))
    ensures
        r.0@.map_values(|e: Event| e@) == run_lines(lines@.map_values(|l: Vec<u8>| l@), 0).0,
        r.1@.map_values(|d: Diagnostic| d@) == run_lines(lines@.map_values(|l: Vec<u8>| l@), 0).1,
{
    let ghost ls = lines@.map_values(|l: Vec<u8>| l@);
    let mut evs: Vec<Event> = Vec::new();
    let mut ds: Vec<Diagnostic> = Vec::new();
    let mut i: usize = 0;
    proof {
        assert(evs@.map_values(|e: Event| e@) + run_lines(ls, 0).0 =~= run_lines(ls, 0).0);
        assert(ds@.map_values(|d: Diagnostic| d@) + run_lines(ls, 0).1 =~= run_lines(ls, 0).1);
    }
    while i < lines.len()
        invariant
            0 <= i <= lines.len(),
            ls == lines@.map_values(|l: Vec<u8>| l@),
            run_lines(ls, 0).0 == evs@.map_values(|e: Event| e@) + run_lines(ls, i as int).0,
            run_lines(ls, 0).1 == ds@.map_values(|d: Diagnostic| d@) + run_lines(ls, i as int).1,
        decreases lines.len() - i,
    {
        let line = &lines[i];
        assert(ls[i as int] == line@);
        let ghost evs0 = evs@.map_values(|e: Event| e@);
        let ghost ds0 = ds@.map_values(|d: Diagnostic| d@);
        if line.len() == 0 {
        } else if !utf8_ok(line.as_slice()) {
            ds.push(Diagnostic { kind: DiagKind::InvalidEncoding, line: copy_line(line) });
            proof {
                assert(ds@.map_values(|d: Diagnostic| d@) =~= ds0.push(
                    DiagModel { kind: DiagKind::InvalidEncoding, line: line@ },
                ));
                assert(ds0 + run_lines(ls, i as int).1 =~= ds@.map_values(|d: Diagnostic| d@)
                    + run_lines(ls, i + 1).1);
            }
        } else {
            match SyslogMessage::parse(line.as_slice()) {
                None => {
                    ds.push(Diagnostic { kind: DiagKind::Error, line: copy_line(line) });
                    proof {
                        assert(line_outcome(ls[i as int]) == Err::<EventModel, EventParseError>(
                            EventParseError::Error,
                        ));
                        assert(ds@.map_values(|d: Diagnostic| d@) =~= ds0.push(
                            DiagModel { kind: DiagKind::Error, line: line@ },
                        ));
                        assert(ds0 + run_lines(ls, i as int).1 =~= ds@.map_values(
                            |d: Diagnostic| d@,
                        ) + run_lines(ls, i + 1).1);
                    }
                },
                Some(env) => {
                    match Event::parse(env.message.as_slice()) {
                        Ok(ev) => {
                            let mut ev = ev;
                            let ts_dash = env.timestamp.len() == 1 && env.timestamp[0] == DASH;
                            if !ts_dash {
                                ev.occurred_at = Some(env.timestamp);
                            }
                            proof {
                                assert(line_outcome(ls[i as int]) == Ok::<
                                    EventModel,
                                    EventParseError,
                                >(ev@));
                            }
                            evs.push(ev);
                            proof {
                                assert(run_lines(ls, i as int).0 =~= seq![
                                    run_lines(ls, i as int).0[0],
                                ] + run_lines(ls, i + 1).0);
                                assert(evs@.map_values(|e: Event| e@) =~= evs0.push(
                                    run_lines(ls, i as int).0[0],
                                ));
                                assert(evs0 + run_lines(ls, i as int).0 =~= evs@.map_values(
                                    |e: Event| e@,
                                ) + run_lines(ls, i + 1).0);
                            }
                        },
                        Err(err) => {
                            let kind = match err {
                                EventParseError::Error => DiagKind::Error,
                                EventParseError::IgnoredUserAgent => DiagKind::IgnoredUserAgent,
                                EventParseError::InvalidUserAgent => DiagKind::InvalidUserAgent,
                            };
                            proof {
                                assert(line_outcome(ls[i as int]) == Err::<
                                    EventModel,
                                    EventParseError,
                                >(err));
                                assert(kind == diag_of_err(err));
                            }
                            ds.push(Diagnostic { kind, line: copy_line(line) });
                            proof {
                                assert(ds@.map_values(|d: Diagnostic| d@) =~= ds0.push(
                                    DiagModel { kind: diag_of_err(err), line: line@ },
                                ));
                                assert(ds0 + run_lines(ls, i as int).1 =~= ds@.map_values(
                                    |d: Diagnostic| d@,
                                ) + run_lines(ls, i + 1).1);
                            }
                        },
                    }
                },
            }
        }
        i = i + 1;
    }
    proof {
        assert(run_lines(ls, i as int).0 =~= Seq::<EventModel>::empty());
        assert(run_lines(ls, i as int).1 =~= Seq::<DiagModel>::empty());
        assert(evs@.map_values(|e: Event| e@) + run_lines(ls, i as int).0 =~= evs@.map_values(
            |e: Event| e@,
        ));
        assert(ds@.map_values(|d: Diagnostic| d@) + run_lines(ls, i as int).1 =~= ds@.map_values(
            |d: Diagnostic| d@,
        ));
    }
    (evs, ds)
}

/// The container could not be decompressed: the one fatal, whole-invocation
/// failure.
#[derive(Debug)]
pub struct DecompressError;

/// What decompressing the container yields; decompression is a function of
/// the compressed bytes alone.
pub uninterp spec fn gunzip_of(data: Seq<u8>) -> Seq<u8>;

/// Whether the container's bytes decompress at all; like the content,
/// success or failure is decided by the bytes alone.
pub uninterp spec fn gunzip_ok(data: Seq<u8>) -> bool;

/// Relies on flate2's GzDecoder, read to the end over an in-memory byte
/// slice: whether decompression succeeds, and what content it yields,
/// depend on the input bytes alone; a corrupt or truncated container is
/// reported as an error, never a panic.
#[verifier::external_body]
fn gunzip(data: &Vec<u8>) -> (r: Result<Vec<u8>, DecompressError>)
    ensures
        r is Ok <==> gunzip_ok(data@),
        r matches Ok(b) ==> b@ == gunzip_of(data@),
{
    let mut gz = flate2::read::GzDecoder::new(data.as_slice());
    let mut buf: Vec<u8> = Vec::new();
    match std::io::Read::read_to_end(&mut gz, &mut buf) {
        Ok(_) => Ok(buf),
        Err(_) => Err(DecompressError),
    }
}

/// The segments of `b` between newline bytes, from index `i` on; the wire
/// convention of the container is newline-delimited text.
pub open spec fn split_from(b: Seq<u8>, i: int) -> Seq<Seq<u8>>
    decreases b.len() - i,
{
    let e = find_from(b, i, NEWLINE);
    if i <= e && e < b.len() {
        seq![b.subrange(i, e)] + split_from(b, e + 1)
    } else {
        seq![b.subrange(i, b.len() as int)]
    }
}

/// Splits a buffer into its newline-delimited segments.
pub fn split_lines(data: &[u8]) -> (r: Vec<Vec<u8>>)
    ensures
        r@.map_values(|l: Vec<u8>| l@) == split_from(data@, 0),
{
    let mut out: Vec<Vec<u8>> = Vec::new();
    let mut i: usize = 0;
    proof {
        assert(out@.map_values(|l: Vec<u8>| l@) + split_from(data@, 0) =~= split_from(data@, 0));
    }
    loop
        invariant
            0 <= i <= data@.len(),
            split_from(data@, 0) == out@.map_values(|l: Vec<u8>| l@) + split_from(
                data@,
                i as int,
            ),
        decreases data@.len() - i,
    {
        let ghost out0 = out@.map_values(|l: Vec<u8>| l@);
        let e = find_byte(data, i, NEWLINE);
        proof {
            lemma_find_from(data@, i as int, NEWLINE);
        }
        if e < data.len() {
            out.push(sub_vec(data, i, e));
            proof {
                assert(out@.map_values(|l: Vec<u8>| l@) =~= out0.push(
                    data@.subrange(i as int, e as int),
                ));
                assert(out0 + split_from(data@, i as int) =~= out@.map_values(|l: Vec<u8>| l@)
                    + split_from(data@, e + 1));
            }
            i = e + 1;
        } else {
            out.push(sub_vec(data, i, data.len()));
            proof {
                assert(split_from(data@, i as int) =~= seq![
                    data@.subrange(i as int, data@.len() as int),
                ]);
                assert(out@.map_values(|l: Vec<u8>| l@) =~= out0.push(
                    data@.subrange(i as int, data@.len() as int),
                ));
                assert(out0 + split_from(data@, i as int) =~= out@.map_values(|l: Vec<u8>| l@));
            }
            return out;
        }
    }
}

/// The whole invocation: decompresses the container, splits it into lines,
/// and runs the pipeline driver over them.  It succeeds exactly when the
/// container decompresses; that one failure is fatal and reported exactly
/// once, as the error of the whole call, with no event and no per-line
/// diagnostic produced; every per-line failure is classified and handled
/// locally.
pub fn process_reader(data: &Vec<u8>) -> (r: Result<(Vec<Event>, Vec<Diagnostic>), DecompressError>)
    ensures
        r is Ok <==> gunzip_ok(data@),
        match r {
            Ok(p) => {
                &&& p.0@.map_values(|e: Event| e@) == run_lines(
                    split_from(gunzip_of(data@), 0),
                    0,
                ).0
                &&& p.1@.map_values(|d: Diagnostic| d@) == run_lines(
                    split_from(gunzip_of(data@), 0),
                    0,
                ).1
            },
            Err(_) => true,
        },
{
    match gunzip(data) {
        Err(e) => Err(e),
        Ok(bytes) => {
            let lines = split_lines(bytes.as_slice());
            Ok(process(&lines))
        },
    }
}

} // verus!
