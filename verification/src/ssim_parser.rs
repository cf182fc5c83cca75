//! Byte-level grammar of ffmpeg's SSIM statistics: the per-frame stats-log
//! line, the summary line printed on stdout, and the whole stats file.
//!
//! Numeric fields other than the frame number are handed back as the exact
//! byte spans matched, so a caller may convert them at whatever precision it
//! needs.

use vstd::prelude::*;
use vstd::slice::{slice_index_get, slice_subrange, slice_to_vec};
use vstd::string::StrSliceExecFns;
use vstd::string::StringSliceAdditionalSpecFns;

verus! {

/// The byte classes the grammar's runs are built from.
#[derive(Clone, Copy, Debug)]
pub enum ByteClass {
    /// Decimal digits.
    Digits,
    /// Octal digits.
    OctDigits,
    /// Digits and the decimal point.
    Float,
    /// Digits, the decimal point, and the letters of `inf`.
    DbFloat,
    /// Spaces and tabs.
    Spaces,
}

/// Whether byte `b` belongs to class `c`.
pub open spec fn byte_in_class(b: u8, c: ByteClass) -> bool {
    match c {
        ByteClass::Digits => 0x30 <= b <= 0x39,
        ByteClass::OctDigits => 0x30 <= b <= 0x37,
        ByteClass::Float => 0x30 <= b <= 0x39 || b == 0x2e,
        ByteClass::DbFloat => 0x30 <= b <= 0x39 || b == 0x2e || b == 0x69 || b == 0x6e || b
            == 0x66,
        ByteClass::Spaces => b == 0x20 || b == 0x09,
    }
}

/// Length of the longest prefix of `s` inside class `c`.
pub open spec fn class_prefix_len(s: Seq<u8>, c: ByteClass) -> nat
    decreases s.len(),
{
    if s.len() == 0 || !byte_in_class(s[0], c) {
        0
    } else {
        1 + class_prefix_len(s.subrange(1, s.len() as int), c)
    }
}

/// The tag `t` occurs in `s` at position `at`.
pub open spec fn tag_at_spec(s: Seq<u8>, at: int, t: Seq<u8>) -> bool {
    0 <= at && at + t.len() <= s.len() && s.subrange(at, at + t.len()) == t
}

/// The numeric value of a run of decimal digit bytes.
pub open spec fn byte_digits_val(s: Seq<u8>) -> int
    decreases s.len(),
{
    if s.len() == 0 {
        0
    } else {
        byte_digits_val(s.drop_last()) * 10 + (s.last() - 0x30)
    }
}

/// Decides [`byte_in_class`].
fn in_class(b: u8, c: ByteClass) -> (r: bool)
    ensures
        r == byte_in_class(b, c),
{
    match c {
        ByteClass::Digits => 0x30 <= b && b <= 0x39,
        ByteClass::OctDigits => 0x30 <= b && b <= 0x37,
        ByteClass::Float => (0x30 <= b && b <= 0x39) || b == 0x2e,
        ByteClass::DbFloat => (0x30 <= b && b <= 0x39) || b == 0x2e || b == 0x69 || b == 0x6e
            || b == 0x66,
        ByteClass::Spaces => b == 0x20 || b == 0x09,
    }
}

/// Measures the class run in `s` starting at `from`.
fn take_while_class(s: &[u8], from: usize, c: ByteClass) -> (n: usize)
    requires
        from <= s@.len(),
    ensures
        n == class_prefix_len(s@.subrange(from as int, s@.len() as int), c),
        from + n <= s@.len(),
{
    let len = s.len();
    let mut j = from;
    proof {
        assert(s@.subrange(from as int, len as int) =~= s@.subrange(from as int, s@.len() as int));
    }
    while j < len && in_class(*slice_index_get(s, j), c)
        invariant
            from <= j <= len,
            len == s@.len(),
            class_prefix_len(s@.subrange(from as int, len as int), c) == (j - from)
                + class_prefix_len(s@.subrange(j as int, len as int), c),
        decreases len - j,
    {
        proof {
            let rest = s@.subrange(j as int, len as int);
            assert(rest[0] == s@[j as int]);
            assert(rest.subrange(1, rest.len() as int) =~= s@.subrange(j + 1, len as int));
        }
        j = j + 1;
    }
    proof {
        let rest = s@.subrange(j as int, len as int);
        if j < len {
            assert(rest[0] == s@[j as int]);
        }
        assert(class_prefix_len(rest, c) == 0);
    }
    j - from
}

/// Tests for the tag `t` in `s` at position `at`.
fn tag_at(s: &[u8], at: usize, t: &str) -> (r: bool)
    requires
        at <= s@.len(),
    ensures
        r == tag_at_spec(s@, at as int, t.spec_bytes()),
{
    let tb = t.as_bytes();
    let t_len = tb.len();
    let s_len = s.len();
    if s_len - at < t_len {
        return false;
    }
    let mut k: usize = 0;
    while k < t_len
        invariant
            k <= t_len,
            t_len == t.spec_bytes().len(),
            tb@ == t.spec_bytes(),
            s_len == s@.len(),
            at + t_len <= s_len,
            forall|i: int| 0 <= i < k ==> s@[at + i] == t.spec_bytes()[i],
        decreases t_len - k,
    {
        if *slice_index_get(s, at + k) != *slice_index_get(tb, k) {
            proof {
                assert(s@.subrange(at as int, at + t.spec_bytes().len())[k as int]
                    != t.spec_bytes()[k as int]);
            }
            return false;
        }
        k = k + 1;
    }
    proof {
        assert(s@.subrange(at as int, at + t.spec_bytes().len()) =~= t.spec_bytes());
    }
    true
}

/// Converts the digit span `s[from..to]` into a `u32`, refusing empty spans
/// and values past `u32::MAX`.
fn parse_u32_bytes(s: &[u8], from: usize, to: usize) -> (r: Option<u32>)
    requires
        from <= to <= s@.len(),
        forall|i: int| from <= i < to ==> byte_in_class(#[trigger] s@[i], ByteClass::Digits),
    ensures
        r == (if from < to && byte_digits_val(s@.subrange(from as int, to as int)) <= u32::MAX {
            Some(byte_digits_val(s@.subrange(from as int, to as int)) as u32)
        } else {
            None::<u32>
        }),
{
    if from == to {
        return None;
    }
    let ghost whole = s@.subrange(from as int, to as int);
    let mut acc: u64 = 0;
    let mut i = from;
    proof {
        assert(whole.subrange(0, 0) =~= Seq::<u8>::empty());
        assert(byte_digits_val(whole.subrange(0, 0)) == 0);
    }
    while i < to
        invariant
            from <= i <= to <= s@.len(),
            whole == s@.subrange(from as int, to as int),
            forall|k: int| from <= k < to ==> byte_in_class(#[trigger] s@[k], ByteClass::Digits),
            acc == byte_digits_val(whole.subrange(0, i - from)),
            acc <= u32::MAX,
        decreases to - i,
    {
        let b = *slice_index_get(s, i);
        proof {
            let p = whole.subrange(0, i + 1 - from);
            assert(p.drop_last() =~= whole.subrange(0, i - from));
            assert(p.last() == s@[i as int]);
        }
        acc = acc * 10 + ((b - 0x30) as u64);
        i = i + 1;
        if acc > 0xffff_ffff {
            proof {
                lemma_byte_digits_prefix_mono(whole, i - from);
            }
            return None;
        }
    }
    proof {
        assert(whole.subrange(0, to - from) =~= whole);
    }
    Some(acc as u32)
}

/// Every byte of a class run is in the class.
proof fn lemma_class_run(s: Seq<u8>, c: ByteClass)
    ensures
        class_prefix_len(s, c) <= s.len(),
        forall|i: int| 0 <= i < class_prefix_len(s, c) ==> byte_in_class(#[trigger] s[i], c),
    decreases s.len(),
{
    if s.len() > 0 && byte_in_class(s[0], c) {
        lemma_class_run(s.subrange(1, s.len() as int), c);
        assert forall|i: int| 0 <= i < class_prefix_len(s, c) implies byte_in_class(
            #[trigger] s[i],
            c,
        ) by {
            if i > 0 {
                assert(s.subrange(1, s.len() as int)[i - 1] == s[i]);
            }
        }
    }
}

/// Position after a tag, with failure carried through as a negative value.
pub open spec fn tag_step(s: Seq<u8>, pos: int, t: Seq<u8>) -> int {
    if pos < 0 {
        -1
    } else if tag_at_spec(s, pos, t) {
        pos + t.len()
    } else {
        -1
    }
}

/// Position after the (possibly empty) class run starting at `pos`.
pub open spec fn run_end(s: Seq<u8>, pos: int, c: ByteClass) -> int {
    if pos < 0 || pos > s.len() {
        -1
    } else {
        pos + class_prefix_len(s.subrange(pos, s.len() as int), c)
    }
}

/// Position after a class run of at least one byte.
pub open spec fn run1_step(s: Seq<u8>, pos: int, c: ByteClass) -> int {
    let e = run_end(s, pos, c);
    if e > pos && pos >= 0 {
        e
    } else {
        -1
    }
}

/// Position after one or more spaces.
pub open spec fn space1_step(s: Seq<u8>, pos: int) -> int {
    run1_step(s, pos, ByteClass::Spaces)
}

/// Position after a parenthesised decibel field, `(` run `)`.
pub open spec fn db_step(s: Seq<u8>, pos: int) -> int {
    tag_step(
        s,
        run_end(s, tag_step(s, pos, "(".spec_bytes()), ByteClass::DbFloat),
        ")".spec_bytes(),
    )
}

/// The bytes between two in-range positions.
pub open spec fn span_of(s: Seq<u8>, a: int, b: int) -> Seq<u8> {
    if 0 <= a <= b <= s.len() {
        s.subrange(a, b)
    } else {
        Seq::empty()
    }
}

/// One parsed record: the frame number and the matched byte spans of the
/// four score fields.
pub type FrameRec = (u32, Seq<u8>, Seq<u8>, Seq<u8>, Seq<u8>);

/// The stats-log line grammar:
/// `n:<frame> Y:<y> U:<u> V:<v> All:<all> (<db>)`.
/// Yields the position after the closing parenthesis and the fields.
pub open spec fn ssim_frame_spec(s: Seq<u8>) -> Option<(int, FrameRec)> {
    let p1 = tag_step(s, 0, "n:".spec_bytes());
    let p2 = run_end(s, p1, ByteClass::Digits);
    let p3 = space1_step(s, p2);
    let p4 = tag_step(s, p3, "Y:".spec_bytes());
    let p5 = run_end(s, p4, ByteClass::Float);
    let p6 = space1_step(s, p5);
    let p7 = tag_step(s, p6, "U:".spec_bytes());
    let p8 = run_end(s, p7, ByteClass::Float);
    let p9 = space1_step(s, p8);
    let p10 = tag_step(s, p9, "V:".spec_bytes());
    let p11 = run_end(s, p10, ByteClass::Float);
    let p12 = space1_step(s, p11);
    let p13 = tag_step(s, p12, "All:".spec_bytes());
    let p14 = run_end(s, p13, ByteClass::Float);
    let p15 = space1_step(s, p14);
    let p16 = db_step(s, p15);
    if p16 < 0 {
        None
    } else {
        let fd = span_of(s, p1, p2);
        if fd.len() < 1 || byte_digits_val(fd) > u32::MAX {
            None
        } else {
            Some(
                (
                    p16,
                    (
                        byte_digits_val(fd) as u32,
                        span_of(s, p4, p5),
                        span_of(s, p7, p8),
                        span_of(s, p10, p11),
                        span_of(s, p13, p14),
                    ),
                ),
            )
        }
    }
}

/// The summary line ffmpeg prints on stdout:
/// `[Parsed_ssim_<k> @ 0x<addr>] SSIM Y:<y> (<db>) U:<u> (<db>) V:<v> (<db>) All:<all>`.
/// The frame number of the yielded record is zero.
pub open spec fn ssim_stdout_spec(s: Seq<u8>) -> Option<(int, FrameRec)> {
    let p1 = tag_step(s, 0, "[Parsed_ssim_".spec_bytes());
    let p2 = run1_step(s, p1, ByteClass::Digits);
    let p3 = tag_step(s, p2, " @ 0x".spec_bytes());
    let p4 = run1_step(s, p3, ByteClass::OctDigits);
    let p5 = tag_step(s, p4, "] SSIM Y:".spec_bytes());
    let p6 = run_end(s, p5, ByteClass::Float);
    let p7 = space1_step(s, p6);
    let p8 = db_step(s, p7);
    let p9 = space1_step(s, p8);
    let p10 = tag_step(s, p9, "U:".spec_bytes());
    let p11 = run_end(s, p10, ByteClass::Float);
    let p12 = space1_step(s, p11);
    let p13 = db_step(s, p12);
    let p14 = space1_step(s, p13);
    let p15 = tag_step(s, p14, "V:".spec_bytes());
    let p16 = run_end(s, p15, ByteClass::Float);
    let p17 = space1_step(s, p16);
    let p18 = db_step(s, p17);
    let p19 = space1_step(s, p18);
    let p20 = tag_step(s, p19, "All:".spec_bytes());
    let p21 = run_end(s, p20, ByteClass::Float);
    if p21 < 0 {
        None
    } else {
        Some(
            (
                p21,
                (
                    0u32,
                    span_of(s, p5, p6),
                    span_of(s, p10, p11),
                    span_of(s, p15, p16),
                    span_of(s, p20, p21),
                ),
            ),
        )
    }
}

/// Advances past a tag, mirroring `tag_step`.
fn tag_step_exec(s: &[u8], pos: usize, t: &str) -> (r: Option<usize>)
    requires
        pos <= s@.len(),
    ensures
        match r {
            Some(p) => tag_step(s@, pos as int, t.spec_bytes()) == p as int && pos <= p
                <= s@.len(),
            None => tag_step(s@, pos as int, t.spec_bytes()) < 0,
        },
{
    let s_len = s.len();
    if tag_at(s, pos, t) {
        proof {
            assert(pos + t.spec_bytes().len() <= s_len);
        }
        Some(pos + t.len())
    } else {
        None
    }
}

/// Advances past a possibly empty class run, mirroring `run_end`.
fn run_step_exec(s: &[u8], pos: usize, c: ByteClass) -> (p: usize)
    requires
        pos <= s@.len(),
    ensures
        p as int == run_end(s@, pos as int, c),
        pos <= p <= s@.len(),
{
    let s_len = s.len();
    let n = take_while_class(s, pos, c);
    proof {
        assert(pos + n <= s_len);
    }
    pos + n
}

/// Advances past a class run of at least one byte, mirroring `run1_step`.
fn run1_step_exec(s: &[u8], pos: usize, c: ByteClass) -> (r: Option<usize>)
    requires
        pos <= s@.len(),
    ensures
        match r {
            Some(p) => run1_step(s@, pos as int, c) == p as int && pos < p <= s@.len(),
            None => run1_step(s@, pos as int, c) < 0,
        },
{
    let p = run_step_exec(s, pos, c);
    if p > pos {
        Some(p)
    } else {
        None
    }
}

/// Advances past a parenthesised decibel field, mirroring `db_step`.
fn db_step_exec(s: &[u8], pos: usize) -> (r: Option<usize>)
    requires
        pos <= s@.len(),
    ensures
        match r {
            Some(p) => db_step(s@, pos as int) == p as int && pos <= p <= s@.len(),
            None => db_step(s@, pos as int) < 0,
        },
{
    match tag_step_exec(s, pos, "(") {
        None => None,
        Some(p1) => {
            let p2 = run_step_exec(s, p1, ByteClass::DbFloat);
            tag_step_exec(s, p2, ")")
        },
    }
}

/// Measures the longest decimal-digit prefix of `input`.
pub fn parse_decimal(input: &[u8]) -> (n: usize)
    ensures
        n == class_prefix_len(input@, ByteClass::Digits),
        n <= input@.len(),
{
    proof {
        assert(input@.subrange(0, input@.len() as int) =~= input@);
    }
    take_while_class(input, 0, ByteClass::Digits)
}

/// Measures the longest prefix of digits and decimal points of `input`.
pub fn parse_float(input: &[u8]) -> (n: usize)
    ensures
        n == class_prefix_len(input@, ByteClass::Float),
        n <= input@.len(),
{
    proof {
        assert(input@.subrange(0, input@.len() as int) =~= input@);
    }
    take_while_class(input, 0, ByteClass::Float)
}

/// Parses a parenthesised decibel field at the start of `input`, yielding
/// the consumed length and the bounds of the matched inner span.
pub fn parse_db_float(input: &[u8]) -> (r: Option<(usize, usize, usize)>)
    ensures
        r is Some <==> db_step(input@, 0) >= 0,
        r matches Some((consumed, a, b)) ==> {
            &&& consumed as int == db_step(input@, 0)
            &&& a as int == tag_step(input@, 0, "(".spec_bytes())
            &&& b as int == run_end(input@, a as int, ByteClass::DbFloat)
            &&& a <= b && consumed <= input@.len()
        },
{
    match tag_step_exec(input, 0, "(") {
        None => None,
        Some(a) => {
            let b = run_step_exec(input, a, ByteClass::DbFloat);
            match tag_step_exec(input, b, ")") {
                None => None,
                Some(c) => Some((c, a, b)),
            }
        },
    }
}

/// One frame's statistics: the frame number and the exact byte spans of the
/// four scores, for the caller to convert.
#[derive(Clone, Debug, PartialEq)]
pub struct SsimFrameData {
    /// Frame number, or zero for the stdout summary line.
    pub frame: u32,
    /// Matched bytes of the luma score.
    pub y: Vec<u8>,
    /// Matched bytes of the first chroma score.
    pub u: Vec<u8>,
    /// Matched bytes of the second chroma score.
    pub v: Vec<u8>,
    /// Matched bytes of the combined score.
    pub all: Vec<u8>,
}

impl SsimFrameData {
    /// The empty record.
    pub fn new() -> (r: SsimFrameData)
        ensures
            r.frame == 0,
            r.y@ == Seq::<u8>::empty(),
            r.u@ == Seq::<u8>::empty(),
            r.v@ == Seq::<u8>::empty(),
            r.all@ == Seq::<u8>::empty(),
    {
        SsimFrameData { frame: 0, y: Vec::new(), u: Vec::new(), v: Vec::new(), all: Vec::new() }
    }

    /// Whether this record carries the fields of `rec`.
    pub open spec fn matches_rec(self, rec: FrameRec) -> bool {
        &&& self.frame == rec.0
        &&& self.y@ == rec.1
        &&& self.u@ == rec.2
        &&& self.v@ == rec.3
        &&& self.all@ == rec.4
    }

    /// Parses one stats-log line, yielding the consumed length and the
    /// record.
    #[verifier::rlimit(100)]
    pub fn parse(input: &[u8]) -> (r: Option<(usize, SsimFrameData)>)
        ensures
            r is Some <==> ssim_frame_spec(input@) is Some,
            r matches Some((consumed, fd)) ==> consumed <= input@.len() && match ssim_frame_spec(
                input@,
            ) {
                Some((c, rec)) => consumed as int == c && fd.matches_rec(rec),
                None => false,
            },
    {
        let p1 = match tag_step_exec(input, 0, "n:") {
            Some(p) => p,
            None => {
                return None;
            },
        };
        let p2 = run_step_exec(input, p1, ByteClass::Digits);
        let p3 = match run1_step_exec(input, p2, ByteClass::Spaces) {
            Some(p) => p,
            None => {
                return None;
            },
        };
        let p4 = match tag_step_exec(input, p3, "Y:") {
            Some(p) => p,
            None => {
                return None;
            },
        };
        let p5 = run_step_exec(input, p4, ByteClass::Float);
        let p6 = match run1_step_exec(input, p5, ByteClass::Spaces) {
            Some(p) => p,
            None => {
                return None;
            },
        };
        let p7 = match tag_step_exec(input, p6, "U:") {
            Some(p) => p,
            None => {
                return None;
            },
        };
        let p8 = run_step_exec(input, p7, ByteClass::Float);
        let p9 = match run1_step_exec(input, p8, ByteClass::Spaces) {
            Some(p) => p,
            None => {
                return None;
            },
        };
        let p10 = match tag_step_exec(input, p9, "V:") {
            Some(p) => p,
            None => {
                return None;
            },
        };
        let p11 = run_step_exec(input, p10, ByteClass::Float);
        let p12 = match run1_step_exec(input, p11, ByteClass::Spaces) {
            Some(p) => p,
            None => {
                return None;
            },
        };
        let p13 = match tag_step_exec(input, p12, "All:") {
            Some(p) => p,
            None => {
                return None;
            },
        };
        let p14 = run_step_exec(input, p13, ByteClass::Float);
        let p15 = match run1_step_exec(input, p14, ByteClass::Spaces) {
            Some(p) => p,
            None => {
                return None;
            },
        };
        let p16 = match db_step_exec(input, p15) {
            Some(p) => p,
            None => {
                return None;
            },
        };
        proof {
            lemma_class_run(input@.subrange(p1 as int, input@.len() as int), ByteClass::Digits);
            assert forall|i: int| p1 <= i < p2 implies byte_in_class(
                #[trigger] input@[i],
                ByteClass::Digits,
            ) by {
                assert(input@.subrange(p1 as int, input@.len() as int)[i - p1] == input@[i]);
            }
        }
        let frame = match parse_u32_bytes(input, p1, p2) {
            Some(f) => f,
            None => {
                return None;
            },
        };
        let fd = SsimFrameData {
            frame,
            y: slice_to_vec(slice_subrange(input, p4, p5)),
            u: slice_to_vec(slice_subrange(input, p7, p8)),
            v: slice_to_vec(slice_subrange(input, p10, p11)),
            all: slice_to_vec(slice_subrange(input, p13, p14)),
        };
        Some((p16, fd))
    }
}

/// Parses ffmpeg's stdout SSIM summary line, yielding the consumed length
/// and a record with frame number zero.
#[verifier::rlimit(100)]
pub fn parse_ssim_stdout_line(input: &[u8]) -> (r: Option<(usize, SsimFrameData)>)
    ensures
        r is Some <==> ssim_stdout_spec(input@) is Some,
        r matches Some((consumed, fd)) ==> consumed <= input@.len() && match ssim_stdout_spec(
            input@,
        ) {
            Some((c, rec)) => consumed as int == c && fd.matches_rec(rec),
            None => false,
        },
{
    let p1 = match tag_step_exec(input, 0, "[Parsed_ssim_") {
        Some(p) => p,
        None => {
            return None;
        },
    };
    let p2 = match run1_step_exec(input, p1, ByteClass::Digits) {
        Some(p) => p,
        None => {
            return None;
        },
    };
    let p3 = match tag_step_exec(input, p2, " @ 0x") {
        Some(p) => p,
        None => {
            return None;
        },
    };
    let p4 = match run1_step_exec(input, p3, ByteClass::OctDigits) {
        Some(p) => p,
        None => {
            return None;
        },
    };
    let p5 = match tag_step_exec(input, p4, "] SSIM Y:") {
        Some(p) => p,
        None => {
            return None;
        },
    };
    let p6 = run_step_exec(input, p5, ByteClass::Float);
    let p7 = match run1_step_exec(input, p6, ByteClass::Spaces) {
        Some(p) => p,
        None => {
            return None;
        },
    };
    let p8 = match db_step_exec(input, p7) {
        Some(p) => p,
        None => {
            return None;
        },
    };
    let p9 = match run1_step_exec(input, p8, ByteClass::Spaces) {
        Some(p) => p,
        None => {
            return None;
        },
    };
    let p10 = match tag_step_exec(input, p9, "U:") {
        Some(p) => p,
        None => {
            return None;
        },
    };
    let p11 = run_step_exec(input, p10, ByteClass::Float);
    let p12 = match run1_step_exec(input, p11, ByteClass::Spaces) {
        Some(p) => p,
        None => {
            return None;
        },
    };
    let p13 = match db_step_exec(input, p12) {
        Some(p) => p,
        None => {
            return None;
        },
    };
    let p14 = match run1_step_exec(input, p13, ByteClass::Spaces) {
        Some(p) => p,
        None => {
            return None;
        },
    };
    let p15 = match tag_step_exec(input, p14, "V:") {
        Some(p) => p,
        None => {
            return None;
        },
    };
    let p16 = run_step_exec(input, p15, ByteClass::Float);
    let p17 = match run1_step_exec(input, p16, ByteClass::Spaces) {
        Some(p) => p,
        None => {
            return None;
        },
    };
    let p18 = match db_step_exec(input, p17) {
        Some(p) => p,
        None => {
            return None;
        },
    };
    let p19 = match run1_step_exec(input, p18, ByteClass::Spaces) {
        Some(p) => p,
        None => {
            return None;
        },
    };
    let p20 = match tag_step_exec(input, p19, "All:") {
        Some(p) => p,
        None => {
            return None;
        },
    };
    let p21 = run_step_exec(input, p20, ByteClass::Float);
    let fd = SsimFrameData {
        frame: 0,
        y: slice_to_vec(slice_subrange(input, p5, p6)),
        u: slice_to_vec(slice_subrange(input, p10, p11)),
        v: slice_to_vec(slice_subrange(input, p15, p16)),
        all: slice_to_vec(slice_subrange(input, p20, p21)),
    };
    Some((p21, fd))
}

/// Length of a line ending at `pos`: one for `\n`, two for `\r\n`, zero
/// otherwise.
pub open spec fn line_ending_len(s: Seq<u8>, pos: int) -> int {
    if 0 <= pos < s.len() && s[pos] == 0x0a {
        1
    } else if 0 <= pos && pos + 1 < s.len() && s[pos] == 0x0d && s[pos + 1] == 0x0a {
        2
    } else {
        0
    }
}

/// The records of the whole stats input: stats-log lines separated by line
/// endings, stopping at the first line that does not parse. `fuel` bounds
/// the recursion; any value beyond the record count gives the same result.
pub open spec fn parse_input_spec(s: Seq<u8>, fuel: nat) -> Seq<FrameRec>
    decreases fuel,
{
    if fuel == 0 {
        Seq::empty()
    } else {
        match ssim_frame_spec(s) {
            None => Seq::empty(),
            Some((consumed, rec)) => {
                let sep = line_ending_len(s, consumed);
                if sep == 0 || !(0 <= consumed && consumed + sep <= s.len()) {
                    seq![rec]
                } else {
                    seq![rec] + parse_input_spec(
                        s.subrange(consumed + sep, s.len() as int),
                        (fuel - 1) as nat,
                    )
                }
            },
        }
    }
}

/// Parses the whole stats input into its records.
#[verifier::rlimit(100)]
pub fn parse_input(s: &[u8]) -> (r: Vec<SsimFrameData>)
    ensures
        ({
            let recs = parse_input_spec(s@, s@.len() + 1);
            &&& r@.len() == recs.len()
            &&& forall|i: int| 0 <= i < recs.len() ==> #[trigger] r@[i].matches_rec(recs[i])
        }),
{
    let ghost recs = parse_input_spec(s@, s@.len() + 1);
    let mut out: Vec<SsimFrameData> = Vec::new();
    let mut cur: &[u8] = s;
    let ghost mut fuel: nat = s@.len() + 1;
    loop
        invariant
            recs == parse_input_spec(s@, s@.len() + 1),
            fuel >= cur@.len() + 1,
            out@.len() + parse_input_spec(cur@, fuel).len() == recs.len(),
            forall|i: int| 0 <= i < out@.len() ==> #[trigger] out@[i].matches_rec(recs[i]),
            forall|i: int|
                out@.len() <= i < recs.len() ==> recs[i] == parse_input_spec(cur@, fuel)[i
                    - out@.len()],
        decreases cur@.len(),
    {
        let parsed = SsimFrameData::parse(cur);
        match parsed {
            None => {
                proof {
                    assert(fuel > 0);
                    assert(parse_input_spec(cur@, fuel) =~= Seq::<FrameRec>::empty());
                }
                return out;
            },
            Some((consumed, fd)) => {
                proof {
                    match ssim_frame_spec(cur@) {
                        Some((c0, rec0)) => {
                            assert(parse_input_spec(cur@, fuel)[0] == rec0);
                        },
                        None => {
                            assert(false);
                        },
                    }
                }
                out.push(fd);
                let cur_len = cur.len();
                // A line ending continues the list; anything else ends it.
                let sep: usize = if consumed < cur_len && *slice_index_get(cur, consumed)
                    == 0x0a {
                    1
                } else if consumed < cur_len && cur_len - consumed > 1 && *slice_index_get(
                    cur,
                    consumed,
                ) == 0x0d && *slice_index_get(cur, consumed + 1) == 0x0a {
                    2
                } else {
                    0
                };
                proof {
                    assert(sep as int == line_ending_len(cur@, consumed as int));
                }
                if sep == 0 {
                    proof {
                        match ssim_frame_spec(cur@) {
                            Some((c0, rec0)) => {
                                assert(parse_input_spec(cur@, fuel) =~= seq![rec0]);
                            },
                            None => {
                                assert(false);
                            },
                        }
                    }
                    return out;
                }
                let ghost prev = cur@;
                let ghost prev_fuel = fuel;
                cur = slice_subrange(cur, consumed + sep, cur_len);
                proof {
                    fuel = (fuel - 1) as nat;
                    match ssim_frame_spec(prev) {
                        Some((c0, rec0)) => {
                            assert(parse_input_spec(prev, prev_fuel) =~= seq![rec0]
                                + parse_input_spec(cur@, fuel));
                        },
                        None => {
                            assert(false);
                        },
                    }
                }
            },
        }
    }
}

/// The value of a digit span never falls below the value of any prefix.
proof fn lemma_byte_digits_prefix_mono(s: Seq<u8>, i: int)
    requires
        0 <= i <= s.len(),
        forall|k: int| 0 <= k < s.len() ==> byte_in_class(#[trigger] s[k], ByteClass::Digits),
    ensures
        byte_digits_val(s.take(i)) <= byte_digits_val(s),
    decreases s.len() - i,
{
    if i < s.len() {
        lemma_byte_digits_prefix_mono(s, i + 1);
        assert(s.take(i + 1).drop_last() =~= s.take(i));
        assert(s.take(i + 1).last() == s[i]);
        assert(byte_digits_val(s.take(i)) >= 0) by {
            assert(forall|k: int|
                0 <= k < s.take(i).len() ==> byte_in_class(
                    #[trigger] s.take(i)[k],
                    ByteClass::Digits,
                ));
            lemma_byte_digits_nonneg(s.take(i));
        }
        assert(byte_digits_val(s.take(i)) <= byte_digits_val(s.take(i)) * 10 + (s[i] - 0x30))
            by (nonlinear_arith)
            requires
                byte_digits_val(s.take(i)) >= 0,
                s[i] >= 0x30,
        ;
    } else {
        assert(s.take(i) =~= s);
    }
}

/// A digit span's value is never negative.
proof fn lemma_byte_digits_nonneg(s: Seq<u8>)
    requires
        forall|k: int| 0 <= k < s.len() ==> byte_in_class(#[trigger] s[k], ByteClass::Digits),
    ensures
        byte_digits_val(s) >= 0,
    decreases s.len(),
{
    if s.len() > 0 {
        assert(forall|k: int|
            0 <= k < s.drop_last().len() ==> byte_in_class(
                #[trigger] s.drop_last()[k],
                ByteClass::Digits,
            ));
        lemma_byte_digits_nonneg(s.drop_last());
        assert(byte_digits_val(s.drop_last()) * 10 >= 0) by (nonlinear_arith)
            requires
                byte_digits_val(s.drop_last()) >= 0,
        ;
    }
}

} // verus!
