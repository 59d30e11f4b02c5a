//! The remaining asset codecs: the opaque pass-through kinds, the
//! length-prefixed text records, the demo input files, and the
//! dispatcher that picks a codec from a segment and an index.
//!
//! These kinds merely copy bytes or read simple length-prefixed
//! records; the structured work lives in the level-setup and sprite
//! codecs.

use vstd::prelude::*;
use crate::bytes::{be16, be32, i16v, u16v, u32v};
use crate::level::{enc_level, level_encodable};
use crate::error::{ErrorKind, ParseError, Phase};
use crate::level::LevelSetup;
use crate::pixels::ImgFmt;
use crate::sprite::{format_of_code, Sprite};

verus! {

/// The discriminator a decoded asset reports.
#[derive(Clone, Copy, Debug, PartialEq, Eq, Structural)]
pub enum AssetType {
    Animation,
    Binary,
    DemoInput,
    Dialog,
    GruntyQuestion,
    LevelSetup,
    Midi,
    Model,
    QuizQuestion,
    Sprite(ImgFmt),
}

/// An asset that can re-emit its binary form.  `enc_ok` is the
/// precondition of re-emission and `bytes_spec` pins the bytes down.
pub trait Asset {
    spec fn enc_ok(&self) -> bool;

    spec fn bytes_spec(&self) -> Seq<u8>;

    spec fn type_spec(&self) -> AssetType;

    fn to_bytes(&self) -> (r: Vec<u8>)
        requires
            self.enc_ok(),
        ensures
            r@ == self.bytes_spec(),
    ;

    fn get_type(&self) -> (t: AssetType)
        ensures
            t == self.type_spec(),
    ;
}

/// Copy a byte slice into an owned buffer.
fn copy_slice(b: &[u8]) -> (r: Vec<u8>)
    ensures
        r@ == b@,
{
    let r = vstd::slice::slice_to_vec(vstd::slice::slice_subrange(b, 0, b.len()));
    proof {
        assert(b@.subrange(0, b@.len() as int) =~= b@);
    }
    r
}

/// Copy a vector of bytes.
fn copy_vec(b: &Vec<u8>) -> (r: Vec<u8>)
    ensures
        r@ == b@,
{
    copy_slice(b.as_slice())
}

/// An opaque pass-through asset: its bytes, verbatim.
#[derive(Clone, Debug)]
pub struct Binary {
    pub bytes: Vec<u8>,
}

impl Binary {
    pub fn from_bytes(in_bytes: &[u8]) -> (r: Binary)
        ensures
            r.bytes@ == in_bytes@,
    {
        Binary { bytes: copy_slice(in_bytes) }
    }
}

impl Asset for Binary {
    open spec fn enc_ok(&self) -> bool {
        true
    }

    open spec fn bytes_spec(&self) -> Seq<u8> {
        self.bytes@
    }

    open spec fn type_spec(&self) -> AssetType {
        AssetType::Binary
    }

    fn to_bytes(&self) -> (r: Vec<u8>) {
        copy_vec(&self.bytes)
    }

    fn get_type(&self) -> (t: AssetType) {
        AssetType::Binary
    }
}

/// An opaque animation blob.
#[derive(Clone, Debug)]
pub struct Animation {
    pub bytes: Vec<u8>,
}

impl Animation {
    pub fn from_bytes(in_bytes: &[u8]) -> (r: Animation)
        ensures
            r.bytes@ == in_bytes@,
    {
        Animation { bytes: copy_slice(in_bytes) }
    }
}

impl Asset for Animation {
    open spec fn enc_ok(&self) -> bool {
        true
    }

    open spec fn bytes_spec(&self) -> Seq<u8> {
        self.bytes@
    }

    open spec fn type_spec(&self) -> AssetType {
        AssetType::Animation
    }

    fn to_bytes(&self) -> (r: Vec<u8>) {
        copy_vec(&self.bytes)
    }

    fn get_type(&self) -> (t: AssetType) {
        AssetType::Animation
    }
}

/// An opaque model blob.
#[derive(Clone, Debug)]
pub struct Model {
    pub bytes: Vec<u8>,
}

impl Model {
    pub fn from_bytes(in_bytes: &[u8]) -> (r: Model)
        ensures
            r.bytes@ == in_bytes@,
    {
        Model { bytes: copy_slice(in_bytes) }
    }
}

impl Asset for Model {
    open spec fn enc_ok(&self) -> bool {
        true
    }

    open spec fn bytes_spec(&self) -> Seq<u8> {
        self.bytes@
    }

    open spec fn type_spec(&self) -> AssetType {
        AssetType::Model
    }

    fn to_bytes(&self) -> (r: Vec<u8>) {
        copy_vec(&self.bytes)
    }

    fn get_type(&self) -> (t: AssetType) {
        AssetType::Model
    }
}

/// An opaque midi sequence blob.
#[derive(Clone, Debug)]
pub struct MidiSeqFile {
    pub bytes: Vec<u8>,
}

impl MidiSeqFile {
    pub fn from_bytes(in_bytes: &[u8]) -> (r: MidiSeqFile)
        ensures
            r.bytes@ == in_bytes@,
    {
        MidiSeqFile { bytes: copy_slice(in_bytes) }
    }
}

impl Asset for MidiSeqFile {
    open spec fn enc_ok(&self) -> bool {
        true
    }

    open spec fn bytes_spec(&self) -> Seq<u8> {
        self.bytes@
    }

    open spec fn type_spec(&self) -> AssetType {
        AssetType::Midi
    }

    fn to_bytes(&self) -> (r: Vec<u8>) {
        copy_vec(&self.bytes)
    }

    fn get_type(&self) -> (t: AssetType) {
        AssetType::Midi
    }
}

// ---------------------------------------------------------------------
// Length-prefixed text records
// ---------------------------------------------------------------------

/// One tagged in-game string: a command byte and its raw text bytes.
#[derive(Clone, Debug)]
pub struct BKString {
    pub cmd: u8,
    pub string: Vec<u8>,
}

/// Mathematical view of one tagged string.
#[verifier::ext_equal]
pub struct BKStringV {
    pub cmd: u8,
    pub string: Seq<u8>,
}

impl View for BKString {
    type V = BKStringV;

    open spec fn view(&self) -> BKStringV {
        BKStringV { cmd: self.cmd, string: self.string@ }
    }
}

/// The views of a vector of tagged strings.
pub open spec fn bkstring_views(s: Seq<BKString>) -> Seq<BKStringV> {
    Seq::new(s.len(), |i: int| s[i]@)
}

/// One string on disk: its command byte, its length byte, its bytes.
pub open spec fn enc_bkstring(s: BKStringV) -> Seq<u8> {
    seq![s.cmd, s.string.len() as u8] + s.string
}

/// A run of strings on disk.
pub open spec fn enc_bkstrings(s: Seq<BKStringV>) -> Seq<u8>
    decreases s.len(),
{
    if s.len() == 0 {
        Seq::empty()
    } else {
        enc_bkstring(s[0]) + enc_bkstrings(s.drop_first())
    }
}

/// Every string's length fits its one on-disk byte.
pub open spec fn bkstrings_ok(s: Seq<BKStringV>) -> bool {
    &&& s.len() <= 255
    &&& forall|i: int| 0 <= i < s.len() ==> (#[trigger] s[i]).string.len() <= 255
}

/// Decode `n` length-prefixed strings from position `i`.
pub open spec fn dec_bkstrings(b: Seq<u8>, i: int, n: nat, acc: Seq<BKStringV>) -> Option<
    (Seq<BKStringV>, int),
>
    decreases n,
{
    if n == 0 {
        Some((acc, i))
    } else if !(0 <= i && i + 2 <= b.len()) {
        None
    } else if i + 2 + b[i + 1] > b.len() {
        None
    } else {
        dec_bkstrings(
            b,
            i + 2 + b[i + 1],
            (n - 1) as nat,
            acc.push(BKStringV { cmd: b[i], string: b.subrange(i + 2, i + 2 + b[i + 1]) }),
        )
    }
}

/// Decode a dialog record: the count byte at offset 3 and its strings,
/// then a second count byte and its strings.
pub open spec fn dec_dialog(b: Seq<u8>) -> Option<(Seq<BKStringV>, Seq<BKStringV>)> {
    if b.len() < 4 {
        None
    } else {
        match dec_bkstrings(b, 4, b[3] as nat, Seq::empty()) {
            Some((bottom, j)) => if j < b.len() {
                match dec_bkstrings(b, j + 1, b[j] as nat, Seq::empty()) {
                    Some((top, _end)) => Some((bottom, top)),
                    None => None,
                }
            } else {
                None
            },
            None => None,
        }
    }
}

/// Decode a question record: the count byte at offset 5 and its
/// strings, of which the last three are the answer options.
pub open spec fn dec_question(b: Seq<u8>) -> Option<(Seq<BKStringV>, Seq<BKStringV>)> {
    if b.len() < 6 || b[5] < 3 {
        None
    } else {
        match dec_bkstrings(b, 6, b[5] as nat, Seq::empty()) {
            Some((texts, _end)) => Some(
                (texts.take(texts.len() - 3), texts.skip(texts.len() - 3)),
            ),
            None => None,
        }
    }
}

/// Appending a string appends its encoding.
proof fn lemma_enc_bkstrings_push(s: Seq<BKStringV>, x: BKStringV)
    ensures
        enc_bkstrings(s.push(x)) == enc_bkstrings(s) + enc_bkstring(x),
    decreases s.len(),
{
    if s.len() == 0 {
        assert(s.push(x)[0] == x);
        assert(s.push(x).drop_first() =~= Seq::<BKStringV>::empty());
        assert(enc_bkstrings(Seq::<BKStringV>::empty()) == Seq::<u8>::empty());
        assert(enc_bkstrings(s) == Seq::<u8>::empty());
        assert(enc_bkstrings(s.push(x)) =~= enc_bkstrings(s) + enc_bkstring(x));
    } else {
        assert(s.push(x)[0] == s[0]);
        assert(s.push(x).drop_first() =~= s.drop_first().push(x));
        lemma_enc_bkstrings_push(s.drop_first(), x);
        assert(enc_bkstrings(s) == enc_bkstring(s[0]) + enc_bkstrings(s.drop_first()));
        assert(enc_bkstrings(s.push(x)) == enc_bkstring(s[0]) + (enc_bkstrings(s.drop_first())
            + enc_bkstring(x)));
        assert(enc_bkstring(s[0]) + (enc_bkstrings(s.drop_first()) + enc_bkstring(x)) =~= (
        enc_bkstring(s[0]) + enc_bkstrings(s.drop_first())) + enc_bkstring(x));
    }
}

/// Append the on-disk form of a run of strings.
#[verifier::loop_isolation(false)]
fn push_bkstrings(out: &mut Vec<u8>, s: &Vec<BKString>)
    requires
        bkstrings_ok(bkstring_views(s@)),
    ensures
        final(out)@ == old(out)@ + enc_bkstrings(bkstring_views(s@)),
{
    let ghost sv = bkstring_views(s@);
    let ghost base = out@;
    let mut i: usize = 0;
    proof {
        assert(sv.take(0) =~= Seq::<BKStringV>::empty());
        assert(enc_bkstrings(Seq::<BKStringV>::empty()) == Seq::<u8>::empty());
        assert(base + Seq::<u8>::empty() =~= base);
    }
    while i < s.len()
        invariant
            i <= sv.len(),
            sv == bkstring_views(s@),
            sv.len() == s@.len(),
            out@ =~= base + enc_bkstrings(sv.take(i as int)),
        decreases sv.len() - i,
    {
        let ghost ob = out@;
        let ghost i0 = i as int;
        out.push(s[i].cmd);
        out.push(s[i].string.len() as u8);
        let mut t: usize = 0;
        let ghost tb = out@;
        while t < s[i].string.len()
            invariant
                t <= s@[i as int].string@.len(),
                i < s@.len(),
                out@ =~= tb + s@[i as int].string@.take(t as int),
            decreases s@[i as int].string@.len() - t,
        {
            out.push(s[i].string[t]);
            t = t + 1;
            assert(out@ =~= tb + s@[i as int].string@.take(t as int));
        }
        proof {
            assert(s@[i0].string@.take(s@[i0].string@.len() as int) =~= s@[i0].string@);
            assert(sv[i0] == s@[i0]@);
            assert(out@ =~= ob + enc_bkstring(sv[i0]));
            assert(sv.take(i0 + 1) =~= sv.take(i0).push(sv[i0]));
            lemma_enc_bkstrings_push(sv.take(i0), sv[i0]);
            assert(out@ =~= base + enc_bkstrings(sv.take(i0 + 1)));
        }
        i = i + 1;
    }
    proof {
        assert(sv.take(sv.len() as int) =~= sv);
    }
}

/// Read `n` length-prefixed strings starting at `start`.
#[verifier::loop_isolation(false)]
fn read_bkstrings(b: &[u8], start: usize, n: u8) -> (r: Result<(Vec<BKString>, usize), ParseError>)
    requires
        start <= b@.len(),
    ensures
        r is Ok <==> dec_bkstrings(b@, start as int, n as nat, Seq::empty()) is Some,
        r matches Ok((v, end)) ==> {
            &&& dec_bkstrings(b@, start as int, n as nat, Seq::empty()) == Some(
                (bkstring_views(v@), end as int),
            )
            &&& v@.len() == n as int
            &&& start <= end <= b@.len()
            &&& forall|i: int| 0 <= i < v@.len() ==> (#[trigger] v@[i])@.string.len() <= 255
        },
{
    let mut out: Vec<BKString> = Vec::new();
    let mut off: usize = start;
    let mut k: u8 = 0;
    proof {
        assert(bkstring_views(out@) =~= Seq::<BKStringV>::empty());
    }
    while k < n
        invariant
            k <= n,
            out@.len() == k as int,
            start <= off <= b@.len(),
            forall|i: int| 0 <= i < out@.len() ==> (#[trigger] out@[i])@.string.len() <= 255,
            dec_bkstrings(b@, start as int, n as nat, Seq::empty()) == dec_bkstrings(
                b@,
                off as int,
                (n - k) as nat,
                bkstring_views(out@),
            ),
        decreases n - k,
    {
        let ghost o0 = off as int;
        let ghost a0 = bkstring_views(out@);
        if b.len() - off < 2 {
            proof {
                assert(dec_bkstrings(b@, o0, (n - k) as nat, a0) is None);
            }
            return Err(ParseError::new(Phase::Strings, ErrorKind::Truncated, off, 0));
        }
        let cmd = b[off];
        let size = b[off + 1] as usize;
        if b.len() - (off + 2) < size {
            proof {
                assert(dec_bkstrings(b@, o0, (n - k) as nat, a0) is None);
            }
            return Err(ParseError::new(Phase::Strings, ErrorKind::Truncated, off, 0));
        }
        let string = vstd::slice::slice_to_vec(
            vstd::slice::slice_subrange(b, off + 2, off + 2 + size),
        );
        out.push(BKString { cmd, string });
        off = off + 2 + size;
        k = k + 1;
        proof {
            assert(bkstring_views(out@) =~= a0.push(
                BKStringV { cmd: b@[o0], string: b@.subrange(o0 + 2, o0 + 2 + b@[o0 + 1]) },
            ));
            assert(dec_bkstrings(b@, o0, (n - (k - 1)) as nat, a0) == dec_bkstrings(
                b@,
                off as int,
                (n - k) as nat,
                bkstring_views(out@),
            ));
        }
    }
    proof {
        assert(dec_bkstrings(b@, off as int, 0, bkstring_views(out@)) == Some(
            (bkstring_views(out@), off as int),
        ));
    }
    Ok((out, off))
}

/// A dialog record: the strings of the bottom and the top text box.
#[derive(Clone, Debug)]
pub struct Dialog {
    pub bottom: Vec<BKString>,
    pub top: Vec<BKString>,
}

/// The on-disk form of a dialog record.
pub open spec fn enc_dialog(bottom: Seq<BKStringV>, top: Seq<BKStringV>) -> Seq<u8> {
    seq![0x01u8, 0x03u8, 0x00u8, bottom.len() as u8] + enc_bkstrings(bottom) + seq![
        top.len() as u8,
    ] + enc_bkstrings(top)
}

impl Dialog {
    /// Decode a dialog: a three-byte signature, then the two counted
    /// string runs, exactly as the mathematical reader takes them.
    pub fn from_bytes(in_bytes: &[u8]) -> (r: Result<Dialog, ParseError>)
        ensures
            r is Ok <==> dec_dialog(in_bytes@) is Some,
            r matches Ok(d) ==> {
                &&& dec_dialog(in_bytes@) == Some(
                    (bkstring_views(d.bottom@), bkstring_views(d.top@)),
                )
                &&& bkstrings_ok(bkstring_views(d.bottom@))
                &&& bkstrings_ok(bkstring_views(d.top@))
            },
    {
        if in_bytes.len() < 4 {
            return Err(ParseError::new(Phase::Strings, ErrorKind::Truncated, 0, 0));
        }
        let bottom_size = in_bytes[3];
        let (bottom, off) = match read_bkstrings(in_bytes, 4, bottom_size) {
            Ok(x) => x,
            Err(e) => {
                return Err(e);
            },
        };
        if off >= in_bytes.len() {
            return Err(ParseError::new(Phase::Strings, ErrorKind::Truncated, off, 0));
        }
        let top_size = in_bytes[off];
        let (top, _end) = match read_bkstrings(in_bytes, off + 1, top_size) {
            Ok(x) => x,
            Err(e) => {
                return Err(e);
            },
        };
        Ok(Dialog { bottom, top })
    }
}

impl Asset for Dialog {
    open spec fn enc_ok(&self) -> bool {
        bkstrings_ok(bkstring_views(self.bottom@)) && bkstrings_ok(bkstring_views(self.top@))
    }

    open spec fn bytes_spec(&self) -> Seq<u8> {
        enc_dialog(bkstring_views(self.bottom@), bkstring_views(self.top@))
    }

    open spec fn type_spec(&self) -> AssetType {
        AssetType::Dialog
    }

    fn to_bytes(&self) -> (r: Vec<u8>) {
        let mut out: Vec<u8> = Vec::new();
        out.push(0x01);
        out.push(0x03);
        out.push(0x00);
        out.push(self.bottom.len() as u8);
        push_bkstrings(&mut out, &self.bottom);
        out.push(self.top.len() as u8);
        push_bkstrings(&mut out, &self.top);
        assert(out@ =~= self.bytes_spec());
        out
    }

    fn get_type(&self) -> (t: AssetType) {
        AssetType::Dialog
    }
}

/// A quiz question: its text and exactly three answer options.
#[derive(Clone, Debug)]
pub struct QuizQuestion {
    pub question: Vec<BKString>,
    pub options: Vec<BKString>,
}

/// The on-disk form of a quiz question.
pub open spec fn enc_quiz(question: Seq<BKStringV>, options: Seq<BKStringV>) -> Seq<u8> {
    seq![0x01u8, 0x01u8, 0x02u8, 0x05u8, 0x00u8, (question.len() + options.len()) as u8]
        + enc_bkstrings(question) + enc_bkstrings(options)
}

impl QuizQuestion {
    /// Decode a quiz question: a five-byte signature, a count, and that
    /// many strings, the last three of which are the options, exactly
    /// as the mathematical reader splits them.
    pub fn from_bytes(in_bytes: &[u8]) -> (r: Result<QuizQuestion, ParseError>)
        ensures
            r is Ok <==> dec_question(in_bytes@) is Some,
            r matches Ok(q) ==> {
                &&& dec_question(in_bytes@) == Some(
                    (bkstring_views(q.question@), bkstring_views(q.options@)),
                )
                &&& q.options@.len() == 3
            },
    {
        if in_bytes.len() < 6 {
            return Err(ParseError::new(Phase::Strings, ErrorKind::Truncated, 0, 0));
        }
        let str_cnt = in_bytes[5];
        if str_cnt < 3 {
            return Err(
                ParseError::new(Phase::Strings, ErrorKind::InvariantViolation, 5, str_cnt),
            );
        }
        let (mut texts, _end) = match read_bkstrings(in_bytes, 6, str_cnt) {
            Ok(x) => x,
            Err(e) => {
                return Err(e);
            },
        };
        let ghost all = bkstring_views(texts@);
        let mut options: Vec<BKString> = Vec::new();
        let o3 = texts.remove(texts.len() - 3);
        let o2 = texts.remove(texts.len() - 2);
        let o1 = texts.remove(texts.len() - 1);
        options.push(o3);
        options.push(o2);
        options.push(o1);
        proof {
            assert(bkstring_views(texts@) =~= all.take(all.len() - 3));
            assert(bkstring_views(options@) =~= all.skip(all.len() - 3));
        }
        Ok(QuizQuestion { question: texts, options })
    }
}

impl Asset for QuizQuestion {
    open spec fn enc_ok(&self) -> bool {
        &&& bkstrings_ok(bkstring_views(self.question@))
        &&& bkstrings_ok(bkstring_views(self.options@))
        &&& self.question@.len() + self.options@.len() <= 255
    }

    open spec fn bytes_spec(&self) -> Seq<u8> {
        enc_quiz(bkstring_views(self.question@), bkstring_views(self.options@))
    }

    open spec fn type_spec(&self) -> AssetType {
        AssetType::QuizQuestion
    }

    fn to_bytes(&self) -> (r: Vec<u8>) {
        let mut out: Vec<u8> = Vec::new();
        out.push(0x01);
        out.push(0x01);
        out.push(0x02);
        out.push(0x05);
        out.push(0x00);
        out.push((self.question.len() + self.options.len()) as u8);
        push_bkstrings(&mut out, &self.question);
        push_bkstrings(&mut out, &self.options);
        assert(out@ =~= self.bytes_spec());
        out
    }

    fn get_type(&self) -> (t: AssetType) {
        AssetType::QuizQuestion
    }
}

/// A grunty question: the same layout as a quiz question under another
/// signature.
#[derive(Clone, Debug)]
pub struct GruntyQuestion {
    pub question: Vec<BKString>,
    pub options: Vec<BKString>,
}

/// The on-disk form of a grunty question.
pub open spec fn enc_grunty(question: Seq<BKStringV>, options: Seq<BKStringV>) -> Seq<u8> {
    seq![0x01u8, 0x03u8, 0x00u8, 0x05u8, 0x00u8, (question.len() + options.len()) as u8]
        + enc_bkstrings(question) + enc_bkstrings(options)
}

impl GruntyQuestion {
    /// Decode a grunty question, exactly as the mathematical reader
    /// splits it.
    pub fn from_bytes(in_bytes: &[u8]) -> (r: Result<GruntyQuestion, ParseError>)
        ensures
            r is Ok <==> dec_question(in_bytes@) is Some,
            r matches Ok(q) ==> {
                &&& dec_question(in_bytes@) == Some(
                    (bkstring_views(q.question@), bkstring_views(q.options@)),
                )
                &&& q.options@.len() == 3
            },
    {
        if in_bytes.len() < 6 {
            return Err(ParseError::new(Phase::Strings, ErrorKind::Truncated, 0, 0));
        }
        let str_cnt = in_bytes[5];
        if str_cnt < 3 {
            return Err(
                ParseError::new(Phase::Strings, ErrorKind::InvariantViolation, 5, str_cnt),
            );
        }
        let (mut texts, _end) = match read_bkstrings(in_bytes, 6, str_cnt) {
            Ok(x) => x,
            Err(e) => {
                return Err(e);
            },
        };
        let ghost all = bkstring_views(texts@);
        let mut options: Vec<BKString> = Vec::new();
        let o3 = texts.remove(texts.len() - 3);
        let o2 = texts.remove(texts.len() - 2);
        let o1 = texts.remove(texts.len() - 1);
        options.push(o3);
        options.push(o2);
        options.push(o1);
        proof {
            assert(bkstring_views(texts@) =~= all.take(all.len() - 3));
            assert(bkstring_views(options@) =~= all.skip(all.len() - 3));
        }
        Ok(GruntyQuestion { question: texts, options })
    }
}

impl Asset for GruntyQuestion {
    open spec fn enc_ok(&self) -> bool {
        &&& bkstrings_ok(bkstring_views(self.question@))
        &&& bkstrings_ok(bkstring_views(self.options@))
        &&& self.question@.len() + self.options@.len() <= 255
    }

    open spec fn bytes_spec(&self) -> Seq<u8> {
        enc_grunty(bkstring_views(self.question@), bkstring_views(self.options@))
    }

    open spec fn type_spec(&self) -> AssetType {
        AssetType::GruntyQuestion
    }

    fn to_bytes(&self) -> (r: Vec<u8>) {
        let mut out: Vec<u8> = Vec::new();
        out.push(0x01);
        out.push(0x03);
        out.push(0x00);
        out.push(0x05);
        out.push(0x00);
        out.push((self.question.len() + self.options.len()) as u8);
        push_bkstrings(&mut out, &self.question);
        push_bkstrings(&mut out, &self.options);
        assert(out@ =~= self.bytes_spec());
        out
    }

    fn get_type(&self) -> (t: AssetType) {
        AssetType::GruntyQuestion
    }
}


/// A window of `b` that equals `e` makes every byte of `e` a byte of
/// `b`.
proof fn lemma_window_index_a(b: Seq<u8>, i: int, e: Seq<u8>)
    requires
        0 <= i,
        i + e.len() <= b.len(),
        b.subrange(i, i + e.len()) == e,
    ensures
        forall|k: int| 0 <= k < e.len() ==> b[i + k] == e[k],
        e.len() > 0 ==> b[i] == e[0],
{
    assert forall|k: int| 0 <= k < e.len() implies b[i + k] == e[k] by {
        assert(e[k] == b.subrange(i, i + e.len())[k]);
    }
    if e.len() > 0 {
        assert(e[0] == b.subrange(i, i + e.len())[0]);
    }
}

/// A window within a window of `b` is the corresponding window of `e`.
proof fn lemma_window_sub_a(b: Seq<u8>, i: int, e: Seq<u8>, a: int, c: int)
    requires
        0 <= i,
        i + e.len() <= b.len(),
        b.subrange(i, i + e.len()) == e,
        0 <= a <= c <= e.len(),
    ensures
        b.subrange(i + a, i + c) == e.subrange(a, c),
{
    lemma_window_index_a(b, i, e);
    assert(b.subrange(i + a, i + c) =~= e.subrange(a, c));
}

/// Encoding a concatenation of string runs concatenates their
/// encodings.
proof fn lemma_enc_bkstrings_concat(s1: Seq<BKStringV>, s2: Seq<BKStringV>)
    ensures
        enc_bkstrings(s1 + s2) == enc_bkstrings(s1) + enc_bkstrings(s2),
    decreases s1.len(),
{
    if s1.len() == 0 {
        assert(s1 + s2 =~= s2);
        assert(enc_bkstrings(s1) == Seq::<u8>::empty());
        assert(enc_bkstrings(s1) + enc_bkstrings(s2) =~= enc_bkstrings(s2));
    } else {
        assert((s1 + s2)[0] == s1[0]);
        assert((s1 + s2).drop_first() =~= s1.drop_first() + s2);
        lemma_enc_bkstrings_concat(s1.drop_first(), s2);
        assert(enc_bkstrings(s1 + s2) == enc_bkstring(s1[0]) + (enc_bkstrings(s1.drop_first())
            + enc_bkstrings(s2)));
        assert(enc_bkstring(s1[0]) + (enc_bkstrings(s1.drop_first()) + enc_bkstrings(s2)) =~= (
        enc_bkstring(s1[0]) + enc_bkstrings(s1.drop_first())) + enc_bkstrings(s2));
    }
}

/// Decoding the encoding of a run of strings yields them all.
proof fn lemma_dec_bkstrings_of_enc(b: Seq<u8>, i: int, s: Seq<BKStringV>, acc: Seq<BKStringV>)
    requires
        forall|k: int| 0 <= k < s.len() ==> (#[trigger] s[k]).string.len() <= 255,
        0 <= i,
        i + enc_bkstrings(s).len() <= b.len(),
        b.subrange(i, i + enc_bkstrings(s).len()) == enc_bkstrings(s),
    ensures
        dec_bkstrings(b, i, s.len() as nat, acc) == Some((acc + s, i + enc_bkstrings(s).len())),
    decreases s.len(),
{
    if s.len() == 0 {
        assert(enc_bkstrings(s) == Seq::<u8>::empty());
        assert(acc + s =~= acc);
    } else {
        let e = enc_bkstrings(s);
        let e0 = enc_bkstring(s[0]);
        let sl = s[0].string.len() as int;
        assert(e == e0 + enc_bkstrings(s.drop_first()));
        assert(e0 == seq![s[0].cmd, s[0].string.len() as u8] + s[0].string);
        lemma_window_index_a(b, i, e);
        assert(e[0] == s[0].cmd);
        assert(e[1] == s[0].string.len() as u8);
        assert(b[i] == s[0].cmd);
        assert(b[i + 1] == s[0].string.len() as u8);
        assert(b[i + 1] as int == sl);
        lemma_window_sub_a(b, i, e, 2, 2 + sl);
        assert(e.subrange(2, 2 + sl) =~= s[0].string);
        assert((BKStringV { cmd: b[i], string: b.subrange(i + 2, i + 2 + b[i + 1]) }) =~= s[0]);
        lemma_window_sub_a(b, i, e, e0.len() as int, e.len() as int);
        assert(e.subrange(e0.len() as int, e.len() as int) =~= enc_bkstrings(s.drop_first()));
        assert forall|k: int|
            0 <= k < s.drop_first().len() implies (#[trigger] s.drop_first()[k]).string.len()
            <= 255 by {
            assert(s.drop_first()[k] == s[k + 1]);
        }
        lemma_dec_bkstrings_of_enc(b, i + e0.len(), s.drop_first(), acc.push(s[0]));
        assert(acc.push(s[0]) + s.drop_first() =~= acc + s);
        assert(dec_bkstrings(b, i, s.len() as nat, acc) == dec_bkstrings(
            b,
            i + e0.len(),
            (s.len() - 1) as nat,
            acc.push(s[0]),
        ));
    }
}

/// Round trip of a dialog record: reading back the written form gives
/// the same strings, so re-emitting a decoded dialog reproduces every
/// file the encoder can produce.
pub proof fn lemma_dialog_round_trip(bottom: Seq<BKStringV>, top: Seq<BKStringV>)
    requires
        bkstrings_ok(bottom),
        bkstrings_ok(top),
    ensures
        dec_dialog(enc_dialog(bottom, top)) == Some((bottom, top)),
{
    let b = enc_dialog(bottom, top);
    let eb = enc_bkstrings(bottom);
    let et = enc_bkstrings(top);
    assert(b == seq![0x01u8, 0x03u8, 0x00u8, bottom.len() as u8] + eb + seq![top.len() as u8]
        + et);
    assert(b[3] == bottom.len() as u8);
    assert(b.subrange(4, 4 + eb.len() as int) =~= eb);
    lemma_dec_bkstrings_of_enc(b, 4, bottom, Seq::empty());
    assert(Seq::<BKStringV>::empty() + bottom =~= bottom);
    let j = 4 + eb.len() as int;
    assert(b[j] == top.len() as u8);
    assert(b.subrange(j + 1, j + 1 + et.len()) =~= et);
    lemma_dec_bkstrings_of_enc(b, j + 1, top, Seq::empty());
    assert(Seq::<BKStringV>::empty() + top =~= top);
}

/// Round trip of a question record: reading back the written form
/// splits off exactly the three options that were written.
pub proof fn lemma_question_round_trip(question: Seq<BKStringV>, options: Seq<BKStringV>)
    requires
        bkstrings_ok(question),
        bkstrings_ok(options),
        options.len() == 3,
        question.len() + options.len() <= 255,
    ensures
        dec_question(enc_quiz(question, options)) == Some((question, options)),
        dec_question(enc_grunty(question, options)) == Some((question, options)),
{
    let all = question + options;
    assert forall|k: int| 0 <= k < all.len() implies (#[trigger] all[k]).string.len() <= 255 by {
        if k < question.len() {
            assert(all[k] == question[k]);
        } else {
            assert(all[k] == options[k - question.len()]);
        }
    }
    lemma_enc_bkstrings_concat(question, options);
    let bq = enc_quiz(question, options);
    assert(bq == seq![0x01u8, 0x01u8, 0x02u8, 0x05u8, 0x00u8, (question.len()
        + options.len()) as u8] + enc_bkstrings(question) + enc_bkstrings(options));
    assert(bq[5] == all.len() as u8);
    assert(bq.subrange(6, 6 + enc_bkstrings(all).len() as int) =~= enc_bkstrings(all));
    lemma_dec_bkstrings_of_enc(bq, 6, all, Seq::empty());
    assert(Seq::<BKStringV>::empty() + all =~= all);
    assert(all.take(all.len() - 3) =~= question);
    assert(all.skip(all.len() - 3) =~= options);
    let bg = enc_grunty(question, options);
    assert(bg == seq![0x01u8, 0x03u8, 0x00u8, 0x05u8, 0x00u8, (question.len()
        + options.len()) as u8] + enc_bkstrings(question) + enc_bkstrings(options));
    assert(bg[5] == all.len() as u8);
    assert(bg.subrange(6, 6 + enc_bkstrings(all).len() as int) =~= enc_bkstrings(all));
    lemma_dec_bkstrings_of_enc(bg, 6, all, Seq::empty());
}

// ---------------------------------------------------------------------
// Demo input files
// ---------------------------------------------------------------------

/// One controller sample: stick position, button bits, and how many
/// frames it holds.
#[derive(Clone, Copy, Debug, PartialEq, Eq, Structural)]
pub struct ContInput {
    pub x: i8,
    pub y: i8,
    pub buttons: u16,
    pub frames: u8,
}

/// One controller sample on disk; the sixth byte is padding except in
/// the first record, where it carries the file's flag.
pub open spec fn enc_cont(c: ContInput, pad: u8) -> Seq<u8> {
    seq![c.x as u8, c.y as u8] + be16(c.buttons) + seq![c.frames, pad]
}

/// The records after the first, with zero padding.
pub open spec fn enc_conts_rest(s: Seq<ContInput>) -> Seq<u8>
    decreases s.len(),
{
    if s.len() == 0 {
        Seq::empty()
    } else {
        enc_cont(s[0], 0) + enc_conts_rest(s.drop_first())
    }
}

/// A demo input file on disk: a byte-length word, then the records;
/// an empty file stays empty.
pub open spec fn enc_demo(inputs: Seq<ContInput>, flag: u8) -> Seq<u8> {
    if inputs.len() == 0 {
        Seq::empty()
    } else {
        be32((6 * inputs.len()) as u32) + enc_cont(inputs[0], flag) + enc_conts_rest(
            inputs.drop_first(),
        )
    }
}

impl ContInput {
    /// The six on-disk bytes of this sample, with zero padding.
    pub fn to_bytes(&self) -> (r: Vec<u8>)
        ensures
            r@ == enc_cont(*self, 0),
    {
        let mut out: Vec<u8> = Vec::new();
        out.push(self.x as u8);
        out.push(self.y as u8);
        crate::bytes::push_be16(&mut out, self.buttons);
        out.push(self.frames);
        out.push(0);
        assert(out@ =~= enc_cont(*self, 0));
        out
    }
}

/// Appending a record appends its encoding.
proof fn lemma_enc_conts_push(s: Seq<ContInput>, x: ContInput)
    ensures
        enc_conts_rest(s.push(x)) == enc_conts_rest(s) + enc_cont(x, 0),
    decreases s.len(),
{
    if s.len() == 0 {
        assert(s.push(x)[0] == x);
        assert(s.push(x).drop_first() =~= Seq::<ContInput>::empty());
        assert(enc_conts_rest(Seq::<ContInput>::empty()) == Seq::<u8>::empty());
        assert(enc_conts_rest(s) == Seq::<u8>::empty());
        assert(enc_conts_rest(s.push(x)) =~= enc_conts_rest(s) + enc_cont(x, 0));
    } else {
        assert(s.push(x)[0] == s[0]);
        assert(s.push(x).drop_first() =~= s.drop_first().push(x));
        lemma_enc_conts_push(s.drop_first(), x);
        assert(enc_conts_rest(s.push(x)) == enc_cont(s[0], 0) + (enc_conts_rest(s.drop_first())
            + enc_cont(x, 0)));
        assert(enc_cont(s[0], 0) + (enc_conts_rest(s.drop_first()) + enc_cont(x, 0)) =~= (
        enc_cont(s[0], 0) + enc_conts_rest(s.drop_first())) + enc_cont(x, 0));
    }
}

/// A demo button file: the controller samples and the flag carried by
/// the first record's padding byte.
#[derive(Clone, Debug)]
pub struct DemoButtonFile {
    pub inputs: Vec<ContInput>,
    pub frame1_flag: u8,
}

/// The controller samples stored after the length word: one record
/// per whole six-byte group.
pub open spec fn demo_records(b: Seq<u8>) -> Seq<ContInput> {
    Seq::new(
        ((b.len() - 4) / 6) as nat,
        |i: int|
            ContInput {
                x: b[4 + 6 * i] as i8,
                y: b[4 + 6 * i + 1] as i8,
                buttons: u16v(b[4 + 6 * i + 2], b[4 + 6 * i + 3]),
                frames: b[4 + 6 * i + 4],
            },
    )
}

/// Decode a demo input file: a file shorter than one length word is
/// empty; otherwise the word must equal six times the whole record
/// count, and the flag rides in the tenth byte.
pub open spec fn dec_demo(b: Seq<u8>) -> Option<(Seq<ContInput>, u8)> {
    if b.len() < 4 {
        Some((Seq::empty(), 0))
    } else if b.len() < 10 {
        None
    } else if u32v(b[0], b[1], b[2], b[3]) as int != 6 * ((b.len() - 4) / 6) {
        None
    } else {
        Some((demo_records(b), b[9]))
    }
}

impl DemoButtonFile {
    /// Decode a demo input file: the byte-length word, then six-byte
    /// records, exactly as the mathematical reader takes them.
    pub fn from_bytes(in_bytes: &[u8]) -> (r: Result<DemoButtonFile, ParseError>)
        ensures
            r is Ok <==> dec_demo(in_bytes@) is Some,
            r matches Ok(d) ==> {
                &&& dec_demo(in_bytes@) == Some((d.inputs@, d.frame1_flag))
                &&& in_bytes@.len() < 4 ==> d.inputs@.len() == 0 && d.frame1_flag == 0
                &&& in_bytes@.len() >= 4 ==> d.inputs@.len() == (in_bytes@.len() - 4) / 6
                    && d.frame1_flag == in_bytes@[9]
            },
    {
        if in_bytes.len() < 4 {
            return Ok(DemoButtonFile { inputs: Vec::new(), frame1_flag: 0 });
        }
        let expect_len: u32 = (in_bytes[0] as u32) * 0x1000000 + (in_bytes[1] as u32) * 0x10000 + (
        in_bytes[2] as u32) * 0x100 + (in_bytes[3] as u32);
        if in_bytes.len() < 10 {
            return Err(ParseError::new(Phase::DemoInput, ErrorKind::Truncated, 4, 0));
        }
        let f1f = in_bytes[9];
        let count: usize = (in_bytes.len() - 4) / 6;
        let mut inputs: Vec<ContInput> = Vec::new();
        let mut k: usize = 0;
        while k < count
            invariant
                k <= count,
                inputs@.len() == k,
                count == (in_bytes@.len() - 4) / 6,
                4 + 6 * count <= in_bytes@.len(),
                4 + 6 * count <= usize::MAX,
                forall|t: int| 0 <= t < k ==> #[trigger] inputs@[t] == demo_records(in_bytes@)[t],
            decreases count - k,
        {
            let off = 4 + 6 * k;
            let bx = in_bytes[off] as i8;
            let by = in_bytes[off + 1] as i8;
            let buttons = (in_bytes[off + 2] as u16) * 0x100 + (in_bytes[off + 3] as u16);
            let frames = in_bytes[off + 4];
            inputs.push(ContInput { x: bx, y: by, buttons, frames });
            k = k + 1;
        }
        if (expect_len as u64) != 6u64 * (inputs.len() as u64) {
            return Err(ParseError::new(Phase::DemoInput, ErrorKind::InvariantViolation, 0, 0));
        }
        proof {
            assert(inputs@ =~= demo_records(in_bytes@));
        }
        Ok(DemoButtonFile { inputs, frame1_flag: f1f })
    }
}

impl Asset for DemoButtonFile {
    open spec fn enc_ok(&self) -> bool {
        self.inputs@.len() <= 0x0FFFFFFF
    }

    open spec fn bytes_spec(&self) -> Seq<u8> {
        enc_demo(self.inputs@, self.frame1_flag)
    }

    open spec fn type_spec(&self) -> AssetType {
        AssetType::DemoInput
    }

    /// Re-emit the file: the length word, then the records, the first
    /// one carrying the flag in its padding byte.
    #[verifier::loop_isolation(false)]
    fn to_bytes(&self) -> (r: Vec<u8>) {
        let mut out: Vec<u8> = Vec::new();
        if self.inputs.len() == 0 {
            proof {
                assert(out@ =~= self.bytes_spec());
            }
            return out;
        }
        crate::bytes::push_be32(&mut out, 6 * (self.inputs.len() as u32));
        let first = self.inputs[0];
        out.push(first.x as u8);
        out.push(first.y as u8);
        crate::bytes::push_be16(&mut out, first.buttons);
        out.push(first.frames);
        out.push(self.frame1_flag);
        let ghost hdr = out@;
        proof {
            assert(hdr =~= be32((6 * self.inputs@.len()) as u32) + enc_cont(
                self.inputs@[0],
                self.frame1_flag,
            ));
        }
        let ghost rest = self.inputs@.drop_first();
        let mut k: usize = 1;
        proof {
            assert(rest.take(0) =~= Seq::<ContInput>::empty());
            assert(enc_conts_rest(Seq::<ContInput>::empty()) == Seq::<u8>::empty());
            assert(hdr + Seq::<u8>::empty() =~= hdr);
        }
        while k < self.inputs.len()
            invariant
                1 <= k <= self.inputs@.len(),
                out@ =~= hdr + enc_conts_rest(rest.take(k as int - 1)),
            decreases self.inputs@.len() - k,
        {
            let ghost ob = out@;
            let c = self.inputs[k];
            out.push(c.x as u8);
            out.push(c.y as u8);
            crate::bytes::push_be16(&mut out, c.buttons);
            out.push(c.frames);
            out.push(0);
            proof {
                assert(out@ =~= ob + enc_cont(self.inputs@[k as int], 0));
                assert(rest[k as int - 1] == self.inputs@[k as int]);
                assert(rest.take(k as int) =~= rest.take(k as int - 1).push(rest[k as int - 1]));
                lemma_enc_conts_push(rest.take(k as int - 1), rest[k as int - 1]);
                assert(out@ =~= hdr + enc_conts_rest(rest.take(k as int)));
            }
            k = k + 1;
        }
        proof {
            assert(rest.take(rest.len() as int) =~= rest);
            assert(out@ =~= self.bytes_spec());
        }
        out
    }

    fn get_type(&self) -> (t: AssetType) {
        AssetType::DemoInput
    }
}

// ---------------------------------------------------------------------
// Level cube records
// ---------------------------------------------------------------------

/// An interactive object record, with its packed fields unpacked.
#[derive(Clone, Copy, Debug, PartialEq, Eq, Structural)]
pub struct NodeProp {
    pub x: i16,
    pub y: i16,
    pub z: i16,
    pub radius: u16,
    pub bit6: u16,
    pub bit0: u16,
    pub actor_id: u16,
    pub unk_a: u8,
    pub yaw: u32,
    pub scale: u32,
    pub unk_10: u32,
}

/// A prop record, kept as its three raw words.
#[derive(Clone, Copy, Debug, PartialEq, Eq, Structural)]
pub struct OtherNode {
    pub unk_4: u32,
    pub unk_c: u32,
    pub unk_10: u32,
}

/// One level cube record: an object or a prop, told apart by its width.
#[derive(Clone, Copy, Debug, PartialEq, Eq, Structural)]
pub enum LevelCubeBytes {
    NodePropBytes(NodeProp),
    OtherNodeBytes(OtherNode),
}

impl LevelCubeBytes {
    /// Unpack one raw record: twenty bytes make an object with its
    /// bit-packed radius, category, yaw and scale fields split out;
    /// twelve bytes make a prop of three raw words.
    pub fn new(bytes: &[u8]) -> (r: LevelCubeBytes)
        requires
            bytes@.len() == 20 || bytes@.len() == 12,
        ensures
            bytes@.len() == 20 ==> (r matches LevelCubeBytes::NodePropBytes(p) && {
                &&& p.x == i16v(bytes@[0], bytes@[1])
                &&& p.y == i16v(bytes@[2], bytes@[3])
                &&& p.z == i16v(bytes@[4], bytes@[5])
                &&& p.radius == u16v(bytes@[6], bytes@[7]) as int % 0x200
                &&& p.bit6 == u16v(bytes@[6], bytes@[7]) as int / 0x200 % 0x40
                &&& p.bit0 == u16v(bytes@[6], bytes@[7]) as int / 0x8000
                &&& p.actor_id == u16v(bytes@[8], bytes@[9])
                &&& p.unk_a == bytes@[10]
                &&& p.yaw == u32v(bytes@[12], bytes@[13], bytes@[14], bytes@[15]) as int % 0x200
                &&& p.scale == u32v(bytes@[12], bytes@[13], bytes@[14], bytes@[15]) as int / 0x200
                &&& p.unk_10 == u32v(bytes@[16], bytes@[17], bytes@[18], bytes@[19])
            }),
            bytes@.len() == 12 ==> (r matches LevelCubeBytes::OtherNodeBytes(o) && {
                &&& o.unk_4 == u32v(bytes@[0], bytes@[1], bytes@[2], bytes@[3])
                &&& o.unk_c == u32v(bytes@[4], bytes@[5], bytes@[6], bytes@[7])
                &&& o.unk_10 == u32v(bytes@[8], bytes@[9], bytes@[10], bytes@[11])
            }),
    {
        if bytes.len() == 20 {
            let unk_c = (bytes[12] as u32) * 0x1000000 + (bytes[13] as u32) * 0x10000 + (
            bytes[14] as u32) * 0x100 + (bytes[15] as u32);
            let yaw = unk_c % 0x200;
            let scale = unk_c / 0x200;
            let unk_6 = (bytes[6] as u16) * 0x100 + (bytes[7] as u16);
            let radius = unk_6 % 0x200;
            let bit6 = unk_6 / 0x200 % 0x40;
            let bit0 = unk_6 / 0x8000;
            LevelCubeBytes::NodePropBytes(
                NodeProp {
                    x: ((bytes[0] as u16) * 0x100 + (bytes[1] as u16)) as i16,
                    y: ((bytes[2] as u16) * 0x100 + (bytes[3] as u16)) as i16,
                    z: ((bytes[4] as u16) * 0x100 + (bytes[5] as u16)) as i16,
                    radius,
                    bit6,
                    bit0,
                    actor_id: (bytes[8] as u16) * 0x100 + (bytes[9] as u16),
                    unk_a: bytes[10],
                    yaw,
                    scale,
                    unk_10: (bytes[16] as u32) * 0x1000000 + (bytes[17] as u32) * 0x10000 + (
                    bytes[18] as u32) * 0x100 + (bytes[19] as u32),
                },
            )
        } else {
            LevelCubeBytes::OtherNodeBytes(
                OtherNode {
                    unk_4: (bytes[0] as u32) * 0x1000000 + (bytes[1] as u32) * 0x10000 + (
                    bytes[2] as u32) * 0x100 + (bytes[3] as u32),
                    unk_c: (bytes[4] as u32) * 0x1000000 + (bytes[5] as u32) * 0x10000 + (
                    bytes[6] as u32) * 0x100 + (bytes[7] as u32),
                    unk_10: (bytes[8] as u32) * 0x1000000 + (bytes[9] as u32) * 0x10000 + (
                    bytes[10] as u32) * 0x100 + (bytes[11] as u32),
                },
            )
        }
    }
}

// ---------------------------------------------------------------------
// The dispatcher
// ---------------------------------------------------------------------

/// A decoded asset of any kind.
#[derive(Clone, Debug)]
pub enum ParsedAsset {
    Animation(Animation),
    Binary(Binary),
    DemoInput(DemoButtonFile),
    Dialog(Dialog),
    GruntyQuestion(GruntyQuestion),
    LevelSetup(LevelSetup),
    LevelSetupOpaque(Vec<u8>),
    Midi(MidiSeqFile),
    Model(Model),
    QuizQuestion(QuizQuestion),
    Sprite(Sprite),
}

impl ParsedAsset {
    /// The discriminator of this asset; the one known-unparseable map
    /// keeps its level-setup discriminator although its bytes stay
    /// opaque.
    pub fn get_type(&self) -> (t: AssetType)
        ensures
            t == match self {
                ParsedAsset::Animation(_) => AssetType::Animation,
                ParsedAsset::Binary(_) => AssetType::Binary,
                ParsedAsset::DemoInput(_) => AssetType::DemoInput,
                ParsedAsset::Dialog(_) => AssetType::Dialog,
                ParsedAsset::GruntyQuestion(_) => AssetType::GruntyQuestion,
                ParsedAsset::LevelSetup(_) => AssetType::LevelSetup,
                ParsedAsset::LevelSetupOpaque(_) => AssetType::LevelSetup,
                ParsedAsset::Midi(_) => AssetType::Midi,
                ParsedAsset::Model(_) => AssetType::Model,
                ParsedAsset::QuizQuestion(_) => AssetType::QuizQuestion,
                ParsedAsset::Sprite(s) => AssetType::Sprite(s.format),
            },
    {
        match self {
            ParsedAsset::Animation(_) => AssetType::Animation,
            ParsedAsset::Binary(_) => AssetType::Binary,
            ParsedAsset::DemoInput(_) => AssetType::DemoInput,
            ParsedAsset::Dialog(_) => AssetType::Dialog,
            ParsedAsset::GruntyQuestion(_) => AssetType::GruntyQuestion,
            ParsedAsset::LevelSetup(_) => AssetType::LevelSetup,
            ParsedAsset::LevelSetupOpaque(_) => AssetType::LevelSetup,
            ParsedAsset::Midi(_) => AssetType::Midi,
            ParsedAsset::Model(_) => AssetType::Model,
            ParsedAsset::QuizQuestion(_) => AssetType::QuizQuestion,
            ParsedAsset::Sprite(s) => AssetType::Sprite(s.format),
        }
    }
}

/// Which variant, with which content, the dispatcher owes for a
/// segment, an index and the input bytes.
pub open spec fn dispatch_ok(segment: int, idx: int, b: Seq<u8>, a: ParsedAsset) -> bool {
    if segment == 0 {
        a matches ParsedAsset::Animation(x) && x.bytes@ == b
    } else if segment == 1 || segment == 3 {
        if b.len() >= 4 && b[0] == 0 && b[1] == 0 && b[2] == 0 && b[3] == 0x0B {
            a matches ParsedAsset::Model(x) && x.bytes@ == b
        } else {
            a matches ParsedAsset::Sprite(x) && Some(x@) == crate::sprite::dec_sprite(b)
        }
    } else if segment == 2 {
        if idx == 1820 + 113 {
            a matches ParsedAsset::LevelSetupOpaque(x) && x@ == b
        } else {
            a matches ParsedAsset::LevelSetup(x) && Some(x@) == crate::level::dec_level(b)
        }
    } else if segment == 4 {
        if b.len() >= 5 && b[0] == 1 && b[1] == 1 && b[2] == 2 && b[3] == 5 && b[4] == 0 {
            a matches ParsedAsset::QuizQuestion(x) && dec_question(b) == Some(
                (bkstring_views(x.question@), bkstring_views(x.options@)),
            )
        } else if b.len() >= 5 && b[0] == 1 && b[1] == 3 && b[2] == 0 && b[3] == 5 && b[4] == 0 {
            a matches ParsedAsset::GruntyQuestion(x) && dec_question(b) == Some(
                (bkstring_views(x.question@), bkstring_views(x.options@)),
            )
        } else if b.len() >= 3 && b[0] == 1 && b[1] == 3 && b[2] == 0 {
            a matches ParsedAsset::Dialog(x) && dec_dialog(b) == Some(
                (bkstring_views(x.bottom@), bkstring_views(x.top@)),
            )
        } else {
            a matches ParsedAsset::DemoInput(x) && dec_demo(b) == Some((x.inputs@, x.frame1_flag))
        }
    } else if segment == 5 {
        a matches ParsedAsset::Model(x) && x.bytes@ == b
    } else if segment == 6 {
        a matches ParsedAsset::Midi(x) && x.bytes@ == b
    } else {
        a matches ParsedAsset::Binary(x) && x.bytes@ == b
    }
}

/// When the dispatcher owes success: the pass-through kinds always
/// decode; the structured kinds decode exactly when their reader
/// accepts the input.
pub open spec fn dispatch_some(segment: int, idx: int, b: Seq<u8>) -> bool {
    if segment == 1 || segment == 3 {
        if b.len() >= 4 && b[0] == 0 && b[1] == 0 && b[2] == 0 && b[3] == 0x0B {
            true
        } else {
            crate::sprite::dec_sprite(b) is Some
        }
    } else if segment == 2 {
        idx == 1820 + 113 || crate::level::dec_level(b) is Some
    } else if segment == 4 {
        if b.len() >= 5 && b[0] == 1 && ((b[1] == 1 && b[2] == 2 && b[3] == 5 && b[4] == 0) || (
        b[1] == 3 && b[2] == 0 && b[3] == 5 && b[4] == 0)) {
            dec_question(b) is Some
        } else if b.len() >= 3 && b[0] == 1 && b[1] == 3 && b[2] == 0 {
            dec_dialog(b) is Some
        } else {
            dec_demo(b) is Some
        }
    } else {
        true
    }
}

/// Decode an asset from its segment, its within-segment index and its
/// bytes.  The magic-byte sniff picks the codec; the one
/// known-unparseable map of the level segment comes back opaque, its
/// discriminator unchanged.
pub fn from_seg_indx_and_bytes(segment: usize, i: usize, in_bytes: &[u8]) -> (res: Result<
    ParsedAsset,
    ParseError,
>)
    ensures
        res is Ok <==> dispatch_some(segment as int, i as int, in_bytes@),
        res matches Ok(a) ==> dispatch_ok(segment as int, i as int, in_bytes@, a),
{
    if segment == 0 {
        Ok(ParsedAsset::Animation(Animation::from_bytes(in_bytes)))
    } else if segment == 1 || segment == 3 {
        if in_bytes.len() >= 4 && in_bytes[0] == 0 && in_bytes[1] == 0 && in_bytes[2] == 0
            && in_bytes[3] == 0x0B {
            Ok(ParsedAsset::Model(Model::from_bytes(in_bytes)))
        } else {
            match Sprite::from_bytes(in_bytes) {
                Ok(s) => Ok(ParsedAsset::Sprite(s)),
                Err(e) => Err(e),
            }
        }
    } else if segment == 2 {
        if i == 1820 + 113 {
            Ok(ParsedAsset::LevelSetupOpaque(copy_slice(in_bytes)))
        } else {
            match LevelSetup::from_bytes(in_bytes) {
                Ok(l) => Ok(ParsedAsset::LevelSetup(l)),
                Err(e) => Err(e),
            }
        }
    } else if segment == 4 {
        if in_bytes.len() >= 5 && in_bytes[0] == 1 && in_bytes[1] == 1 && in_bytes[2] == 2
            && in_bytes[3] == 5 && in_bytes[4] == 0 {
            match QuizQuestion::from_bytes(in_bytes) {
                Ok(q) => Ok(ParsedAsset::QuizQuestion(q)),
                Err(e) => Err(e),
            }
        } else if in_bytes.len() >= 5 && in_bytes[0] == 1 && in_bytes[1] == 3 && in_bytes[2] == 0
            && in_bytes[3] == 5 && in_bytes[4] == 0 {
            match GruntyQuestion::from_bytes(in_bytes) {
                Ok(q) => Ok(ParsedAsset::GruntyQuestion(q)),
                Err(e) => Err(e),
            }
        } else if in_bytes.len() >= 3 && in_bytes[0] == 1 && in_bytes[1] == 3 && in_bytes[2]
            == 0 {
            match Dialog::from_bytes(in_bytes) {
                Ok(d) => Ok(ParsedAsset::Dialog(d)),
                Err(e) => Err(e),
            }
        } else {
            match DemoButtonFile::from_bytes(in_bytes) {
                Ok(d) => Ok(ParsedAsset::DemoInput(d)),
                Err(e) => Err(e),
            }
        }
    } else if segment == 5 {
        Ok(ParsedAsset::Model(Model::from_bytes(in_bytes)))
    } else if segment == 6 {
        Ok(ParsedAsset::Midi(MidiSeqFile::from_bytes(in_bytes)))
    } else {
        Ok(ParsedAsset::Binary(Binary::from_bytes(in_bytes)))
    }
}

impl Asset for LevelSetup {
    open spec fn enc_ok(&self) -> bool {
        level_encodable(self@)
    }

    open spec fn bytes_spec(&self) -> Seq<u8> {
        enc_level(self@)
    }

    open spec fn type_spec(&self) -> AssetType {
        AssetType::LevelSetup
    }

    fn to_bytes(&self) -> (r: Vec<u8>) {
        LevelSetup::to_bytes(self)
    }

    fn get_type(&self) -> (t: AssetType) {
        AssetType::LevelSetup
    }
}

impl Asset for Sprite {
    open spec fn enc_ok(&self) -> bool {
        true
    }

    open spec fn bytes_spec(&self) -> Seq<u8> {
        self.bytes@
    }

    open spec fn type_spec(&self) -> AssetType {
        AssetType::Sprite(self.format)
    }

    fn to_bytes(&self) -> (r: Vec<u8>) {
        Sprite::to_bytes(self)
    }

    fn get_type(&self) -> (t: AssetType) {
        AssetType::Sprite(self.format)
    }
}

} // verus!
