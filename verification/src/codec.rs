//! The cache's binary record layout, and its versioned decode.
//!
//! Integers are eight little-endian bytes; a string is its byte length
//! followed by its UTF-8 bytes; an optional field is a one-byte tag and,
//! when present, the payload; a list is its length followed by its
//! elements. Three record shapes exist historically; decoding tries the
//! newest first and falls back on the older ones exactly when the bytes
//! run out early, never on a malformed field.

use crate::git_database::{
    commits_view, languages_view, CommitModel, GitCommit, GitRepoInfo, GitRepoInfoV030,
    GitRepoInfoV051, GitRepoSummary, LanguageStat, LanguageStatModel, RepoModel, RepoModelV030,
    RepoModelV051, SerializableTime, SummaryModel,
};
use crate::version::SchemaVersion;
use vstd::bytes::{
    lemma_auto_spec_u32_to_from_le_bytes, lemma_auto_spec_u64_to_from_le_bytes,
    spec_u32_from_le_bytes, spec_u32_to_le_bytes, spec_u64_from_le_bytes, spec_u64_to_le_bytes,
    u32_from_le_bytes, u32_to_le_bytes, u64_from_le_bytes, u64_to_le_bytes,
};
use vstd::prelude::*;
use vstd::slice::{slice_subrange, slice_to_vec};
use vstd::utf8::{
    decode_utf8, encode_utf8, encode_utf8_decode_utf8, encode_utf8_valid_utf8, valid_utf8,
};

verus! {

/// Why a record failed to decode: the bytes ran out before the shape was
/// complete, or a field was malformed.
#[derive(Clone, Copy, Debug, PartialEq, Eq, Structural)]
pub enum DecodeError {
    Truncated,
    Corrupt,
}

/// Which historical shape a record decoded from.
#[derive(Clone, Copy, Debug, PartialEq, Eq, Structural)]
pub enum RecordShape {
    Current,
    V051,
    V030,
}

/// Outcome of reading one component at a position: its value and the
/// next position, or the bytes ran out, or the bytes are malformed.
pub enum SpecRead<T> {
    Val { v: T, next: int },
    Short,
    Bad,
}

// ---------------------------------------------------------------------
// Two's-complement bridges between the signed record fields and the
// unsigned bytes they travel in.
// ---------------------------------------------------------------------

/// The unsigned 64-bit carrier of a timestamp.
pub open spec fn spec_i64_to_u64(t: i64) -> u64 {
    if t >= 0 {
        t as u64
    } else {
        (t + 0x1_0000_0000_0000_0000) as u64
    }
}

/// Inverse of `spec_i64_to_u64`.
pub open spec fn spec_u64_to_i64(v: u64) -> i64 {
    if v <= i64::MAX as u64 {
        v as i64
    } else {
        (v as int - 0x1_0000_0000_0000_0000) as i64
    }
}

/// The unsigned 32-bit carrier of a line count.
pub open spec fn spec_i32_to_u32(t: i32) -> u32 {
    if t >= 0 {
        t as u32
    } else {
        (t + 0x1_0000_0000) as u32
    }
}

/// Inverse of `spec_i32_to_u32`.
pub open spec fn spec_u32_to_i32(v: u32) -> i32 {
    if v <= i32::MAX as u32 {
        v as i32
    } else {
        (v as int - 0x1_0000_0000) as i32
    }
}

pub proof fn lemma_i64_u64_round_trip(t: i64)
    ensures
        spec_u64_to_i64(spec_i64_to_u64(t)) == t,
{
}

pub proof fn lemma_i32_u32_round_trip(t: i32)
    ensures
        spec_u32_to_i32(spec_i32_to_u32(t)) == t,
{
}

fn i64_to_u64(t: i64) -> (v: u64)
    ensures
        v == spec_i64_to_u64(t),
{
    if t >= 0 {
        t as u64
    } else {
        let shifted: i64 = (t + 0x4000_0000_0000_0000) + 0x4000_0000_0000_0000;
        (shifted as u64) + 0x8000_0000_0000_0000
    }
}

fn u64_to_i64(v: u64) -> (t: i64)
    ensures
        t == spec_u64_to_i64(v),
{
    if v <= 0x7fff_ffff_ffff_ffff {
        v as i64
    } else {
        let shifted: u64 = v - 0x8000_0000_0000_0000;
        ((shifted as i64) - 0x4000_0000_0000_0000) - 0x4000_0000_0000_0000
    }
}

fn i32_to_u32(t: i32) -> (v: u32)
    ensures
        v == spec_i32_to_u32(t),
{
    if t >= 0 {
        t as u32
    } else {
        let shifted: i32 = (t + 0x4000_0000) + 0x4000_0000;
        (shifted as u32) + 0x8000_0000
    }
}

fn u32_to_i32(v: u32) -> (t: i32)
    ensures
        t == spec_u32_to_i32(v),
{
    if v <= 0x7fff_ffff {
        v as i32
    } else {
        let shifted: u32 = v - 0x8000_0000;
        ((shifted as i32) - 0x4000_0000) - 0x4000_0000
    }
}

// ---------------------------------------------------------------------
// Encoding, at the specification level.
// ---------------------------------------------------------------------

/// Eight little-endian bytes.
pub open spec fn spec_encode_u64(v: u64) -> Seq<u8> {
    spec_u64_to_le_bytes(v)
}

/// Four little-endian bytes.
pub open spec fn spec_encode_u32(v: u32) -> Seq<u8> {
    spec_u32_to_le_bytes(v)
}

/// One presence tag byte.
pub open spec fn spec_encode_tag(present: bool) -> Seq<u8> {
    if present {
        seq![1u8]
    } else {
        seq![0u8]
    }
}

/// Byte length, then UTF-8 bytes.
pub open spec fn spec_encode_string(s: Seq<char>) -> Seq<u8> {
    spec_encode_u64(encode_utf8(s).len() as u64) + encode_utf8(s)
}

/// Major, minor, patch.
pub open spec fn spec_encode_version(v: SchemaVersion) -> Seq<u8> {
    spec_encode_u64(v.major) + spec_encode_u64(v.minor) + spec_encode_u64(v.patch)
}

// ---------------------------------------------------------------------
// Reading, at the specification level.
// ---------------------------------------------------------------------

/// Reads eight little-endian bytes.
pub open spec fn spec_read_u64(b: Seq<u8>, p: int) -> SpecRead<u64> {
    if 0 <= p && p + 8 <= b.len() {
        SpecRead::Val { v: spec_u64_from_le_bytes(b.subrange(p, p + 8)), next: p + 8 }
    } else {
        SpecRead::Short
    }
}

/// Reads four little-endian bytes.
pub open spec fn spec_read_u32(b: Seq<u8>, p: int) -> SpecRead<u32> {
    if 0 <= p && p + 4 <= b.len() {
        SpecRead::Val { v: spec_u32_from_le_bytes(b.subrange(p, p + 4)), next: p + 4 }
    } else {
        SpecRead::Short
    }
}

/// Reads one presence tag byte; any value but 0 or 1 is malformed.
pub open spec fn spec_read_tag(b: Seq<u8>, p: int) -> SpecRead<bool> {
    if 0 <= p && p + 1 <= b.len() {
        if b[p] == 0u8 {
            SpecRead::Val { v: false, next: p + 1 }
        } else if b[p] == 1u8 {
            SpecRead::Val { v: true, next: p + 1 }
        } else {
            SpecRead::Bad
        }
    } else {
        SpecRead::Short
    }
}

/// Reads a length-prefixed UTF-8 string; invalid UTF-8 is malformed.
pub open spec fn spec_read_string(b: Seq<u8>, p: int) -> SpecRead<Seq<char>> {
    match spec_read_u64(b, p) {
        SpecRead::Val { v: n, next: q } => {
            if q + n > b.len() {
                SpecRead::Short
            } else {
                let bytes = b.subrange(q, q + n);
                if valid_utf8(bytes) {
                    SpecRead::Val { v: decode_utf8(bytes), next: q + n }
                } else {
                    SpecRead::Bad
                }
            }
        },
        SpecRead::Short => SpecRead::Short,
        SpecRead::Bad => SpecRead::Bad,
    }
}

/// Reads a count that must fit the platform's word; an oversized count
/// is malformed.
pub open spec fn spec_read_usize(b: Seq<u8>, p: int) -> SpecRead<usize> {
    match spec_read_u64(b, p) {
        SpecRead::Val { v, next } => {
            if v <= usize::MAX as u64 {
                SpecRead::Val { v: v as usize, next }
            } else {
                SpecRead::Bad
            }
        },
        SpecRead::Short => SpecRead::Short,
        SpecRead::Bad => SpecRead::Bad,
    }
}

/// Reads a version triple.
pub open spec fn spec_read_version(b: Seq<u8>, p: int) -> SpecRead<SchemaVersion> {
    match spec_read_u64(b, p) {
        SpecRead::Val { v: major, next: p1 } => match spec_read_u64(b, p1) {
            SpecRead::Val { v: minor, next: p2 } => match spec_read_u64(b, p2) {
                SpecRead::Val { v: patch, next: p3 } => SpecRead::Val {
                    v: SchemaVersion { major, minor, patch },
                    next: p3,
                },
                SpecRead::Short => SpecRead::Short,
                SpecRead::Bad => SpecRead::Bad,
            },
            SpecRead::Short => SpecRead::Short,
            SpecRead::Bad => SpecRead::Bad,
        },
        SpecRead::Short => SpecRead::Short,
        SpecRead::Bad => SpecRead::Bad,
    }
}

// ---------------------------------------------------------------------
// Reading and writing, executable.
// ---------------------------------------------------------------------

/// Relies on `String::from_utf8`: yields the character sequence whose
/// UTF-8 encoding is the given bytes, exactly when they are valid UTF-8.
#[verifier::external_body]
fn string_from_utf8(bytes: Vec<u8>) -> (r: Option<String>)
    ensures
        match r {
            Some(s) => valid_utf8(bytes@) && s@ == decode_utf8(bytes@),
            None => !valid_utf8(bytes@),
        },
{
    match String::from_utf8(bytes) {
        Ok(s) => Some(s),
        Err(_) => None,
    }
}

fn write_u64(out: &mut Vec<u8>, v: u64)
    ensures
        final(out)@ == old(out)@ + spec_encode_u64(v),
{
    let mut bytes = u64_to_le_bytes(v);
    out.append(&mut bytes);
}

fn write_u32(out: &mut Vec<u8>, v: u32)
    ensures
        final(out)@ == old(out)@ + spec_encode_u32(v),
{
    let mut bytes = u32_to_le_bytes(v);
    out.append(&mut bytes);
}

fn write_tag(out: &mut Vec<u8>, present: bool)
    ensures
        final(out)@ == old(out)@ + spec_encode_tag(present),
{
    if present {
        out.push(1u8);
    } else {
        out.push(0u8);
    }
    proof {
        assert(final(out)@ =~= old(out)@ + spec_encode_tag(present));
    }
}

fn write_string(out: &mut Vec<u8>, s: &String)
    ensures
        final(out)@ == old(out)@ + spec_encode_string(s@),
{
    let mut bytes = s.as_str().as_bytes_vec();
    write_u64(out, bytes.len() as u64);
    out.append(&mut bytes);
    proof {
        assert(final(out)@ =~= old(out)@ + spec_encode_string(s@));
    }
}

fn write_version(out: &mut Vec<u8>, v: &SchemaVersion)
    ensures
        final(out)@ == old(out)@ + spec_encode_version(*v),
{
    write_u64(out, v.major);
    write_u64(out, v.minor);
    write_u64(out, v.patch);
    proof {
        assert(final(out)@ =~= old(out)@ + spec_encode_version(*v));
    }
}

fn read_u64(b: &Vec<u8>, pos: &mut usize) -> (r: Result<u64, DecodeError>)
    requires
        *old(pos) <= b@.len(),
    ensures
        *final(pos) <= b@.len(),
        match r {
            Ok(v) => spec_read_u64(b@, *old(pos) as int) == (SpecRead::Val {
                v,
                next: *final(pos) as int,
            }),
            Err(e) => spec_read_u64(b@, *old(pos) as int) is Short && e
                == DecodeError::Truncated,
        },
{
    if b.len() - *pos >= 8 {
        let s = slice_subrange(b.as_slice(), *pos, *pos + 8);
        let v = u64_from_le_bytes(s);
        *pos = *pos + 8;
        Ok(v)
    } else {
        Err(DecodeError::Truncated)
    }
}

fn read_u32(b: &Vec<u8>, pos: &mut usize) -> (r: Result<u32, DecodeError>)
    requires
        *old(pos) <= b@.len(),
    ensures
        *final(pos) <= b@.len(),
        match r {
            Ok(v) => spec_read_u32(b@, *old(pos) as int) == (SpecRead::Val {
                v,
                next: *final(pos) as int,
            }),
            Err(e) => spec_read_u32(b@, *old(pos) as int) is Short && e
                == DecodeError::Truncated,
        },
{
    if b.len() - *pos >= 4 {
        let s = slice_subrange(b.as_slice(), *pos, *pos + 4);
        let v = u32_from_le_bytes(s);
        *pos = *pos + 4;
        Ok(v)
    } else {
        Err(DecodeError::Truncated)
    }
}

fn read_tag(b: &Vec<u8>, pos: &mut usize) -> (r: Result<bool, DecodeError>)
    requires
        *old(pos) <= b@.len(),
    ensures
        *final(pos) <= b@.len(),
        match r {
            Ok(t) => spec_read_tag(b@, *old(pos) as int) == (SpecRead::Val {
                v: t,
                next: *final(pos) as int,
            }),
            Err(e) => (spec_read_tag(b@, *old(pos) as int) is Short && e
                == DecodeError::Truncated) || (spec_read_tag(b@, *old(pos) as int) is Bad && e
                == DecodeError::Corrupt),
        },
{
    if *pos < b.len() {
        let byte = b[*pos];
        if byte == 0 {
            *pos = *pos + 1;
            Ok(false)
        } else if byte == 1 {
            *pos = *pos + 1;
            Ok(true)
        } else {
            Err(DecodeError::Corrupt)
        }
    } else {
        Err(DecodeError::Truncated)
    }
}

fn read_string(b: &Vec<u8>, pos: &mut usize) -> (r: Result<String, DecodeError>)
    requires
        *old(pos) <= b@.len(),
    ensures
        *final(pos) <= b@.len(),
        match r {
            Ok(s) => spec_read_string(b@, *old(pos) as int) == (SpecRead::Val {
                v: s@,
                next: *final(pos) as int,
            }),
            Err(e) => (spec_read_string(b@, *old(pos) as int) is Short && e
                == DecodeError::Truncated) || (spec_read_string(b@, *old(pos) as int) is Bad && e
                == DecodeError::Corrupt),
        },
{
    let n = match read_u64(b, pos) {
        Ok(n) => n,
        Err(e) => {
            return Err(e);
        },
    };
    if n > (b.len() - *pos) as u64 {
        return Err(DecodeError::Truncated);
    }
    let start = *pos;
    let end = *pos + (n as usize);
    let bytes = slice_to_vec(slice_subrange(b.as_slice(), start, end));
    match string_from_utf8(bytes) {
        Some(s) => {
            *pos = end;
            Ok(s)
        },
        None => Err(DecodeError::Corrupt),
    }
}

fn read_usize(b: &Vec<u8>, pos: &mut usize) -> (r: Result<usize, DecodeError>)
    requires
        *old(pos) <= b@.len(),
    ensures
        *final(pos) <= b@.len(),
        match r {
            Ok(v) => spec_read_usize(b@, *old(pos) as int) == (SpecRead::Val {
                v,
                next: *final(pos) as int,
            }),
            Err(e) => (spec_read_usize(b@, *old(pos) as int) is Short && e
                == DecodeError::Truncated) || (spec_read_usize(b@, *old(pos) as int) is Bad && e
                == DecodeError::Corrupt),
        },
{
    let v = match read_u64(b, pos) {
        Ok(v) => v,
        Err(e) => {
            return Err(e);
        },
    };
    if v <= usize::MAX as u64 {
        Ok(v as usize)
    } else {
        Err(DecodeError::Corrupt)
    }
}

fn read_version(b: &Vec<u8>, pos: &mut usize) -> (r: Result<SchemaVersion, DecodeError>)
    requires
        *old(pos) <= b@.len(),
    ensures
        *final(pos) <= b@.len(),
        match r {
            Ok(v) => spec_read_version(b@, *old(pos) as int) == (SpecRead::Val {
                v,
                next: *final(pos) as int,
            }),
            Err(e) => spec_read_version(b@, *old(pos) as int) is Short && e
                == DecodeError::Truncated,
        },
{
    let major = match read_u64(b, pos) {
        Ok(v) => v,
        Err(e) => {
            return Err(e);
        },
    };
    let minor = match read_u64(b, pos) {
        Ok(v) => v,
        Err(e) => {
            return Err(e);
        },
    };
    let patch = match read_u64(b, pos) {
        Ok(v) => v,
        Err(e) => {
            return Err(e);
        },
    };
    Ok(SchemaVersion { major, minor, patch })
}

// ---------------------------------------------------------------------
// Commit records and language statistics.
// ---------------------------------------------------------------------

/// One commit: two strings, the timestamp, the message, three counts.
pub open spec fn spec_encode_commit(c: CommitModel) -> Seq<u8> {
    spec_encode_string(c.hash) + spec_encode_string(c.author_email) + spec_encode_u64(
        spec_i64_to_u64(c.time),
    ) + spec_encode_string(c.message) + spec_encode_u64(c.file_changes as u64) + spec_encode_u64(
        c.insertions as u64,
    ) + spec_encode_u64(c.deletion as u64)
}

/// Commit records, one after the other.
pub open spec fn spec_encode_commit_seq(s: Seq<CommitModel>) -> Seq<u8>
    decreases s.len(),
{
    if s.len() == 0 {
        Seq::<u8>::empty()
    } else {
        spec_encode_commit(s.first()) + spec_encode_commit_seq(s.drop_first())
    }
}

/// An optional commit history: a presence tag and, when present, the
/// count and the records.
pub open spec fn spec_encode_commits(o: Option<Seq<CommitModel>>) -> Seq<u8> {
    match o {
        None => spec_encode_tag(false),
        Some(s) => spec_encode_tag(true) + spec_encode_u64(s.len() as u64) + spec_encode_commit_seq(
            s,
        ),
    }
}

/// One language's statistics: the name and four counts.
pub open spec fn spec_encode_lang(l: LanguageStatModel) -> Seq<u8> {
    spec_encode_string(l.name) + spec_encode_u64(l.lines) + spec_encode_u64(l.code)
        + spec_encode_u64(l.comments) + spec_encode_u64(l.blanks)
}

/// Language records, one after the other.
pub open spec fn spec_encode_lang_seq(s: Seq<LanguageStatModel>) -> Seq<u8>
    decreases s.len(),
{
    if s.len() == 0 {
        Seq::<u8>::empty()
    } else {
        spec_encode_lang(s.first()) + spec_encode_lang_seq(s.drop_first())
    }
}

/// Optional language statistics, as for commit histories.
pub open spec fn spec_encode_languages(o: Option<Seq<LanguageStatModel>>) -> Seq<u8> {
    match o {
        None => spec_encode_tag(false),
        Some(s) => spec_encode_tag(true) + spec_encode_u64(s.len() as u64) + spec_encode_lang_seq(
            s,
        ),
    }
}

/// Reads one commit record.
pub open spec fn spec_read_commit(b: Seq<u8>, p: int) -> SpecRead<CommitModel> {
    match spec_read_string(b, p) {
        SpecRead::Val { v: hash, next: p1 } => match spec_read_string(b, p1) {
            SpecRead::Val { v: author_email, next: p2 } => match spec_read_u64(b, p2) {
                SpecRead::Val { v: time_bits, next: p3 } => match spec_read_string(b, p3) {
                    SpecRead::Val { v: message, next: p4 } => match spec_read_usize(b, p4) {
                        SpecRead::Val { v: file_changes, next: p5 } => match spec_read_usize(
                            b,
                            p5,
                        ) {
                            SpecRead::Val { v: insertions, next: p6 } => match spec_read_usize(
                                b,
                                p6,
                            ) {
                                SpecRead::Val { v: deletion, next: p7 } => SpecRead::Val {
                                    v: CommitModel {
                                        hash,
                                        author_email,
                                        time: spec_u64_to_i64(time_bits),
                                        message,
                                        file_changes,
                                        insertions,
                                        deletion,
                                    },
                                    next: p7,
                                },
                                SpecRead::Short => SpecRead::Short,
                                SpecRead::Bad => SpecRead::Bad,
                            },
                            SpecRead::Short => SpecRead::Short,
                            SpecRead::Bad => SpecRead::Bad,
                        },
                        SpecRead::Short => SpecRead::Short,
                        SpecRead::Bad => SpecRead::Bad,
                    },
                    SpecRead::Short => SpecRead::Short,
                    SpecRead::Bad => SpecRead::Bad,
                },
                SpecRead::Short => SpecRead::Short,
                SpecRead::Bad => SpecRead::Bad,
            },
            SpecRead::Short => SpecRead::Short,
            SpecRead::Bad => SpecRead::Bad,
        },
        SpecRead::Short => SpecRead::Short,
        SpecRead::Bad => SpecRead::Bad,
    }
}

/// Reads `n` commit records, one after the other.
pub open spec fn spec_read_commit_seq(b: Seq<u8>, p: int, n: nat) -> SpecRead<Seq<CommitModel>>
    decreases n,
{
    if n == 0 {
        SpecRead::Val { v: Seq::<CommitModel>::empty(), next: p }
    } else {
        match spec_read_commit(b, p) {
            SpecRead::Val { v: c, next: q } => match spec_read_commit_seq(b, q, (n - 1) as nat) {
                SpecRead::Val { v: s, next: r } => SpecRead::Val { v: seq![c] + s, next: r },
                SpecRead::Short => SpecRead::Short,
                SpecRead::Bad => SpecRead::Bad,
            },
            SpecRead::Short => SpecRead::Short,
            SpecRead::Bad => SpecRead::Bad,
        }
    }
}

/// Reads an optional commit history.
pub open spec fn spec_read_commits(b: Seq<u8>, p: int) -> SpecRead<Option<Seq<CommitModel>>> {
    match spec_read_tag(b, p) {
        SpecRead::Val { v: present, next: q } => {
            if !present {
                SpecRead::Val { v: None, next: q }
            } else {
                match spec_read_u64(b, q) {
                    SpecRead::Val { v: n, next: q2 } => match spec_read_commit_seq(
                        b,
                        q2,
                        n as nat,
                    ) {
                        SpecRead::Val { v: s, next: r } => SpecRead::Val { v: Some(s), next: r },
                        SpecRead::Short => SpecRead::Short,
                        SpecRead::Bad => SpecRead::Bad,
                    },
                    SpecRead::Short => SpecRead::Short,
                    SpecRead::Bad => SpecRead::Bad,
                }
            }
        },
        SpecRead::Short => SpecRead::Short,
        SpecRead::Bad => SpecRead::Bad,
    }
}

/// Reads one language record.
pub open spec fn spec_read_lang(b: Seq<u8>, p: int) -> SpecRead<LanguageStatModel> {
    match spec_read_string(b, p) {
        SpecRead::Val { v: name, next: p1 } => match spec_read_u64(b, p1) {
            SpecRead::Val { v: lines, next: p2 } => match spec_read_u64(b, p2) {
                SpecRead::Val { v: code, next: p3 } => match spec_read_u64(b, p3) {
                    SpecRead::Val { v: comments, next: p4 } => match spec_read_u64(b, p4) {
                        SpecRead::Val { v: blanks, next: p5 } => SpecRead::Val {
                            v: LanguageStatModel { name, lines, code, comments, blanks },
                            next: p5,
                        },
                        SpecRead::Short => SpecRead::Short,
                        SpecRead::Bad => SpecRead::Bad,
                    },
                    SpecRead::Short => SpecRead::Short,
                    SpecRead::Bad => SpecRead::Bad,
                },
                SpecRead::Short => SpecRead::Short,
                SpecRead::Bad => SpecRead::Bad,
            },
            SpecRead::Short => SpecRead::Short,
            SpecRead::Bad => SpecRead::Bad,
        },
        SpecRead::Short => SpecRead::Short,
        SpecRead::Bad => SpecRead::Bad,
    }
}

/// Reads `n` language records, one after the other.
pub open spec fn spec_read_lang_seq(b: Seq<u8>, p: int, n: nat) -> SpecRead<Seq<LanguageStatModel>>
    decreases n,
{
    if n == 0 {
        SpecRead::Val { v: Seq::<LanguageStatModel>::empty(), next: p }
    } else {
        match spec_read_lang(b, p) {
            SpecRead::Val { v: c, next: q } => match spec_read_lang_seq(b, q, (n - 1) as nat) {
                SpecRead::Val { v: s, next: r } => SpecRead::Val { v: seq![c] + s, next: r },
                SpecRead::Short => SpecRead::Short,
                SpecRead::Bad => SpecRead::Bad,
            },
            SpecRead::Short => SpecRead::Short,
            SpecRead::Bad => SpecRead::Bad,
        }
    }
}

/// Reads optional language statistics.
pub open spec fn spec_read_languages(b: Seq<u8>, p: int) -> SpecRead<
    Option<Seq<LanguageStatModel>>,
> {
    match spec_read_tag(b, p) {
        SpecRead::Val { v: present, next: q } => {
            if !present {
                SpecRead::Val { v: None, next: q }
            } else {
                match spec_read_u64(b, q) {
                    SpecRead::Val { v: n, next: q2 } => match spec_read_lang_seq(b, q2, n as nat) {
                        SpecRead::Val { v: s, next: r } => SpecRead::Val { v: Some(s), next: r },
                        SpecRead::Short => SpecRead::Short,
                        SpecRead::Bad => SpecRead::Bad,
                    },
                    SpecRead::Short => SpecRead::Short,
                    SpecRead::Bad => SpecRead::Bad,
                }
            }
        },
        SpecRead::Short => SpecRead::Short,
        SpecRead::Bad => SpecRead::Bad,
    }
}

fn write_commit(out: &mut Vec<u8>, c: &GitCommit)
    ensures
        final(out)@ == old(out)@ + spec_encode_commit(c@),
{
    write_string(out, &c.hash);
    write_string(out, &c.author_email);
    write_u64(out, i64_to_u64(c.time.0));
    write_string(out, &c.message);
    write_u64(out, c.file_changes as u64);
    write_u64(out, c.insertions as u64);
    write_u64(out, c.deletion as u64);
    proof {
        assert(final(out)@ =~= old(out)@ + spec_encode_commit(c@));
    }
}

fn write_lang(out: &mut Vec<u8>, l: &LanguageStat)
    ensures
        final(out)@ == old(out)@ + spec_encode_lang(l@),
{
    write_string(out, &l.name);
    write_u64(out, l.lines);
    write_u64(out, l.code);
    write_u64(out, l.comments);
    write_u64(out, l.blanks);
    proof {
        assert(final(out)@ =~= old(out)@ + spec_encode_lang(l@));
    }
}

proof fn lemma_encode_commit_seq_push(s: Seq<CommitModel>, c: CommitModel)
    ensures
        spec_encode_commit_seq(s.push(c)) == spec_encode_commit_seq(s) + spec_encode_commit(c),
    decreases s.len(),
{
    let sp = s.push(c);
    if s.len() == 0 {
        assert(sp[0] == c);
        assert(sp.first() == c);
        assert(sp.drop_first() =~= Seq::<CommitModel>::empty());
        assert(spec_encode_commit_seq(Seq::<CommitModel>::empty()) == Seq::<u8>::empty());
        assert(spec_encode_commit(c) + Seq::<u8>::empty() =~= spec_encode_commit(c));
        assert(Seq::<u8>::empty() + spec_encode_commit(c) =~= spec_encode_commit(c));
    } else {
        assert(sp[0] == s[0]);
        assert(sp.first() == s.first());
        assert(sp.drop_first() =~= s.drop_first().push(c));
        lemma_encode_commit_seq_push(s.drop_first(), c);
        assert(spec_encode_commit(s.first()) + (spec_encode_commit_seq(s.drop_first())
            + spec_encode_commit(c)) =~= (spec_encode_commit(s.first())
            + spec_encode_commit_seq(s.drop_first())) + spec_encode_commit(c));
    }
}

proof fn lemma_encode_lang_seq_push(s: Seq<LanguageStatModel>, c: LanguageStatModel)
    ensures
        spec_encode_lang_seq(s.push(c)) == spec_encode_lang_seq(s) + spec_encode_lang(c),
    decreases s.len(),
{
    let sp = s.push(c);
    if s.len() == 0 {
        assert(sp[0] == c);
        assert(sp.first() == c);
        assert(sp.drop_first() =~= Seq::<LanguageStatModel>::empty());
        assert(spec_encode_lang_seq(Seq::<LanguageStatModel>::empty()) == Seq::<u8>::empty());
        assert(spec_encode_lang(c) + Seq::<u8>::empty() =~= spec_encode_lang(c));
        assert(Seq::<u8>::empty() + spec_encode_lang(c) =~= spec_encode_lang(c));
    } else {
        assert(sp[0] == s[0]);
        assert(sp.first() == s.first());
        assert(sp.drop_first() =~= s.drop_first().push(c));
        lemma_encode_lang_seq_push(s.drop_first(), c);
        assert(spec_encode_lang(s.first()) + (spec_encode_lang_seq(s.drop_first())
            + spec_encode_lang(c)) =~= (spec_encode_lang(s.first())
            + spec_encode_lang_seq(s.drop_first())) + spec_encode_lang(c));
    }
}

fn write_commits(out: &mut Vec<u8>, commits: &Option<Vec<GitCommit>>)
    ensures
        final(out)@ == old(out)@ + spec_encode_commits(commits_view(commits)),
{
    match commits {
        None => {
            write_tag(out, false);
        },
        Some(v) => {
            write_tag(out, true);
            write_u64(out, v.len() as u64);
            let ghost base = out@;
            let mut i: usize = 0;
            while i < v.len()
                invariant
                    i <= v.len(),
                    out@ == base + spec_encode_commit_seq(v.deep_view().take(i as int)),
                decreases v.len() - i,
            {
                proof {
                    assert(v.deep_view().take(i + 1) =~= v.deep_view().take(i as int).push(
                        v[i as int].deep_view(),
                    ));
                    lemma_encode_commit_seq_push(v.deep_view().take(i as int), v[i as int]@);
                }
                write_commit(out, &v[i]);
                i = i + 1;
            }
            proof {
                assert(v.deep_view().take(v.len() as int) =~= v.deep_view());
                assert(final(out)@ =~= old(out)@ + spec_encode_commits(commits_view(commits)));
            }
        },
    }
}

fn write_languages(out: &mut Vec<u8>, languages: &Option<Vec<LanguageStat>>)
    ensures
        final(out)@ == old(out)@ + spec_encode_languages(languages_view(languages)),
{
    match languages {
        None => {
            write_tag(out, false);
        },
        Some(v) => {
            write_tag(out, true);
            write_u64(out, v.len() as u64);
            let ghost base = out@;
            let mut i: usize = 0;
            while i < v.len()
                invariant
                    i <= v.len(),
                    out@ == base + spec_encode_lang_seq(v.deep_view().take(i as int)),
                decreases v.len() - i,
            {
                proof {
                    assert(v.deep_view().take(i + 1) =~= v.deep_view().take(i as int).push(
                        v[i as int].deep_view(),
                    ));
                    lemma_encode_lang_seq_push(v.deep_view().take(i as int), v[i as int]@);
                }
                write_lang(out, &v[i]);
                i = i + 1;
            }
            proof {
                assert(v.deep_view().take(v.len() as int) =~= v.deep_view());
                assert(final(out)@ =~= old(out)@ + spec_encode_languages(languages_view(languages)));
            }
        },
    }
}

fn read_commit(b: &Vec<u8>, pos: &mut usize) -> (r: Result<GitCommit, DecodeError>)
    requires
        *old(pos) <= b@.len(),
    ensures
        *final(pos) <= b@.len(),
        match r {
            Ok(c) => spec_read_commit(b@, *old(pos) as int) == (SpecRead::Val {
                v: c@,
                next: *final(pos) as int,
            }),
            Err(e) => (spec_read_commit(b@, *old(pos) as int) is Short && e
                == DecodeError::Truncated) || (spec_read_commit(b@, *old(pos) as int) is Bad && e
                == DecodeError::Corrupt),
        },
{
    let hash = match read_string(b, pos) {
        Ok(v) => v,
        Err(e) => {
            return Err(e);
        },
    };
    let author_email = match read_string(b, pos) {
        Ok(v) => v,
        Err(e) => {
            return Err(e);
        },
    };
    let time_bits = match read_u64(b, pos) {
        Ok(v) => v,
        Err(e) => {
            return Err(e);
        },
    };
    let message = match read_string(b, pos) {
        Ok(v) => v,
        Err(e) => {
            return Err(e);
        },
    };
    let file_changes = match read_usize(b, pos) {
        Ok(v) => v,
        Err(e) => {
            return Err(e);
        },
    };
    let insertions = match read_usize(b, pos) {
        Ok(v) => v,
        Err(e) => {
            return Err(e);
        },
    };
    let deletion = match read_usize(b, pos) {
        Ok(v) => v,
        Err(e) => {
            return Err(e);
        },
    };
    Ok(
        GitCommit {
            hash,
            author_email,
            time: SerializableTime(u64_to_i64(time_bits)),
            message,
            file_changes,
            insertions,
            deletion,
        },
    )
}

fn read_lang(b: &Vec<u8>, pos: &mut usize) -> (r: Result<LanguageStat, DecodeError>)
    requires
        *old(pos) <= b@.len(),
    ensures
        *final(pos) <= b@.len(),
        match r {
            Ok(l) => spec_read_lang(b@, *old(pos) as int) == (SpecRead::Val {
                v: l@,
                next: *final(pos) as int,
            }),
            Err(e) => (spec_read_lang(b@, *old(pos) as int) is Short && e
                == DecodeError::Truncated) || (spec_read_lang(b@, *old(pos) as int) is Bad && e
                == DecodeError::Corrupt),
        },
{
    let name = match read_string(b, pos) {
        Ok(v) => v,
        Err(e) => {
            return Err(e);
        },
    };
    let lines = match read_u64(b, pos) {
        Ok(v) => v,
        Err(e) => {
            return Err(e);
        },
    };
    let code = match read_u64(b, pos) {
        Ok(v) => v,
        Err(e) => {
            return Err(e);
        },
    };
    let comments = match read_u64(b, pos) {
        Ok(v) => v,
        Err(e) => {
            return Err(e);
        },
    };
    let blanks = match read_u64(b, pos) {
        Ok(v) => v,
        Err(e) => {
            return Err(e);
        },
    };
    Ok(LanguageStat { name, lines, code, comments, blanks })
}

/// Combines already-read elements with the outcome of the rest.
pub open spec fn spec_seq_combine<T>(pre: Seq<T>, c: SpecRead<Seq<T>>) -> SpecRead<Seq<T>> {
    match c {
        SpecRead::Val { v, next } => SpecRead::Val { v: pre + v, next },
        SpecRead::Short => SpecRead::Short,
        SpecRead::Bad => SpecRead::Bad,
    }
}

fn read_commit_seq(b: &Vec<u8>, pos: &mut usize, n: u64) -> (r: Result<
    Vec<GitCommit>,
    DecodeError,
>)
    requires
        *old(pos) <= b@.len(),
    ensures
        *final(pos) <= b@.len(),
        match r {
            Ok(v) => spec_read_commit_seq(b@, *old(pos) as int, n as nat) == (SpecRead::Val {
                v: v.deep_view(),
                next: *final(pos) as int,
            }),
            Err(e) => (spec_read_commit_seq(b@, *old(pos) as int, n as nat) is Short && e
                == DecodeError::Truncated) || (spec_read_commit_seq(
                b@,
                *old(pos) as int,
                n as nat,
            ) is Bad && e == DecodeError::Corrupt),
        },
{
    let mut acc: Vec<GitCommit> = Vec::new();
    let mut i: u64 = 0;
    proof {
        assert(acc.deep_view() =~= Seq::<CommitModel>::empty());
    }
    while i < n
        invariant
            i <= n,
            *pos <= b@.len(),
            acc.deep_view().len() == i as nat,
            spec_read_commit_seq(b@, *old(pos) as int, n as nat) == spec_seq_combine(
                acc.deep_view(),
                spec_read_commit_seq(b@, *pos as int, (n - i) as nat),
            ),
        decreases n - i,
    {
        let ghost pre = acc.deep_view();
        let c = match read_commit(b, pos) {
            Ok(c) => c,
            Err(e) => {
                return Err(e);
            },
        };
        acc.push(c);
        i = i + 1;
        proof {
            assert(acc.deep_view() =~= pre.push(c@));
            assert(pre.push(c@) =~= pre + seq![c@]);
        }
        proof {
            let rest = spec_read_commit_seq(b@, *pos as int, (n - i) as nat);
            match rest {
                SpecRead::Val { v: s, next: r } => {
                    assert((seq![c@] + s) =~= (pre + (seq![c@] + s)).skip(pre.len() as int));
                    assert(pre + (seq![c@] + s) =~= (pre + seq![c@]) + s);
                },
                SpecRead::Short => {},
                SpecRead::Bad => {},
            }
        }
    }
    proof {
        assert(acc.deep_view() + Seq::<CommitModel>::empty() =~= acc.deep_view());
    }
    Ok(acc)
}

fn read_lang_seq(b: &Vec<u8>, pos: &mut usize, n: u64) -> (r: Result<
    Vec<LanguageStat>,
    DecodeError,
>)
    requires
        *old(pos) <= b@.len(),
    ensures
        *final(pos) <= b@.len(),
        match r {
            Ok(v) => spec_read_lang_seq(b@, *old(pos) as int, n as nat) == (SpecRead::Val {
                v: v.deep_view(),
                next: *final(pos) as int,
            }),
            Err(e) => (spec_read_lang_seq(b@, *old(pos) as int, n as nat) is Short && e
                == DecodeError::Truncated) || (spec_read_lang_seq(
                b@,
                *old(pos) as int,
                n as nat,
            ) is Bad && e == DecodeError::Corrupt),
        },
{
    let mut acc: Vec<LanguageStat> = Vec::new();
    let mut i: u64 = 0;
    proof {
        assert(acc.deep_view() =~= Seq::<LanguageStatModel>::empty());
    }
    while i < n
        invariant
            i <= n,
            *pos <= b@.len(),
            acc.deep_view().len() == i as nat,
            spec_read_lang_seq(b@, *old(pos) as int, n as nat) == spec_seq_combine(
                acc.deep_view(),
                spec_read_lang_seq(b@, *pos as int, (n - i) as nat),
            ),
        decreases n - i,
    {
        let ghost pre = acc.deep_view();
        let c = match read_lang(b, pos) {
            Ok(c) => c,
            Err(e) => {
                return Err(e);
            },
        };
        acc.push(c);
        i = i + 1;
        proof {
            assert(acc.deep_view() =~= pre.push(c@));
            assert(pre.push(c@) =~= pre + seq![c@]);
        }
        proof {
            let rest = spec_read_lang_seq(b@, *pos as int, (n - i) as nat);
            match rest {
                SpecRead::Val { v: s, next: r } => {
                    assert(pre + (seq![c@] + s) =~= (pre + seq![c@]) + s);
                },
                SpecRead::Short => {},
                SpecRead::Bad => {},
            }
        }
    }
    proof {
        assert(acc.deep_view() + Seq::<LanguageStatModel>::empty() =~= acc.deep_view());
    }
    Ok(acc)
}

fn read_commits(b: &Vec<u8>, pos: &mut usize) -> (r: Result<Option<Vec<GitCommit>>, DecodeError>)
    requires
        *old(pos) <= b@.len(),
    ensures
        *final(pos) <= b@.len(),
        match r {
            Ok(o) => spec_read_commits(b@, *old(pos) as int) == (SpecRead::Val {
                v: commits_view(&o),
                next: *final(pos) as int,
            }),
            Err(e) => (spec_read_commits(b@, *old(pos) as int) is Short && e
                == DecodeError::Truncated) || (spec_read_commits(b@, *old(pos) as int) is Bad && e
                == DecodeError::Corrupt),
        },
{
    let present = match read_tag(b, pos) {
        Ok(t) => t,
        Err(e) => {
            return Err(e);
        },
    };
    if !present {
        return Ok(None);
    }
    let n = match read_u64(b, pos) {
        Ok(v) => v,
        Err(e) => {
            return Err(e);
        },
    };
    match read_commit_seq(b, pos, n) {
        Ok(v) => Ok(Some(v)),
        Err(e) => Err(e),
    }
}

fn read_languages(b: &Vec<u8>, pos: &mut usize) -> (r: Result<
    Option<Vec<LanguageStat>>,
    DecodeError,
>)
    requires
        *old(pos) <= b@.len(),
    ensures
        *final(pos) <= b@.len(),
        match r {
            Ok(o) => spec_read_languages(b@, *old(pos) as int) == (SpecRead::Val {
                v: languages_view(&o),
                next: *final(pos) as int,
            }),
            Err(e) => (spec_read_languages(b@, *old(pos) as int) is Short && e
                == DecodeError::Truncated) || (spec_read_languages(b@, *old(pos) as int) is Bad
                && e == DecodeError::Corrupt),
        },
{
    let present = match read_tag(b, pos) {
        Ok(t) => t,
        Err(e) => {
            return Err(e);
        },
    };
    if !present {
        return Ok(None);
    }
    let n = match read_u64(b, pos) {
        Ok(v) => v,
        Err(e) => {
            return Err(e);
        },
    };
    match read_lang_seq(b, pos, n) {
        Ok(v) => Ok(Some(v)),
        Err(e) => Err(e),
    }
}


// ---------------------------------------------------------------------
// Whole records: the three snapshot shapes and the summary.
// ---------------------------------------------------------------------

/// A snapshot in the current shape.
pub open spec fn spec_encode_repo(m: RepoModel) -> Seq<u8> {
    spec_encode_string(m.path) + spec_encode_string(m.status) + spec_encode_string(m.origin_url)
        + spec_encode_string(m.unpushed_commits) + spec_encode_string(m.remote_updates)
        + spec_encode_version(m.app_version) + spec_encode_commits(m.commits)
        + spec_encode_languages(m.languages)
}

/// A snapshot in the middle historical shape.
pub open spec fn spec_encode_repo_v051(m: RepoModelV051) -> Seq<u8> {
    spec_encode_string(m.path) + spec_encode_string(m.status) + spec_encode_string(m.origin_url)
        + spec_encode_string(m.unpushed_commits) + spec_encode_string(m.remote_updates)
        + spec_encode_version(m.app_version) + spec_encode_commits(m.commits)
}

/// A snapshot in the oldest historical shape.
pub open spec fn spec_encode_repo_v030(m: RepoModelV030) -> Seq<u8> {
    spec_encode_string(m.path) + spec_encode_string(m.status) + spec_encode_string(m.origin_url)
        + spec_encode_string(m.unpushed_commits) + spec_encode_string(m.remote_updates)
        + spec_encode_version(m.app_version)
}

/// A summary record.
pub open spec fn spec_encode_summary(m: SummaryModel) -> Seq<u8> {
    spec_encode_string(m.path) + spec_encode_string(m.origin_url) + spec_encode_u32(
        spec_i32_to_u32(m.status_lines as i32),
    ) + spec_encode_u32(spec_i32_to_u32(m.unpushed_commits_lines as i32)) + spec_encode_u32(
        spec_i32_to_u32(m.remote_updates_lines as i32),
    ) + spec_encode_version(m.app_version)
}

/// Reads the five text facts and the version shared by every shape.
pub open spec fn spec_read_repo_common(b: Seq<u8>, p: int) -> SpecRead<RepoModelV030> {
    match spec_read_string(b, p) {
        SpecRead::Val { v: path, next: p1 } => match spec_read_string(b, p1) {
            SpecRead::Val { v: status, next: p2 } => match spec_read_string(b, p2) {
                SpecRead::Val { v: origin_url, next: p3 } => match spec_read_string(b, p3) {
                    SpecRead::Val { v: unpushed_commits, next: p4 } => match spec_read_string(
                        b,
                        p4,
                    ) {
                        SpecRead::Val { v: remote_updates, next: p5 } => match spec_read_version(
                            b,
                            p5,
                        ) {
                            SpecRead::Val { v: app_version, next: p6 } => SpecRead::Val {
                                v: RepoModelV030 {
                                    path,
                                    status,
                                    origin_url,
                                    unpushed_commits,
                                    remote_updates,
                                    app_version,
                                },
                                next: p6,
                            },
                            SpecRead::Short => SpecRead::Short,
                            SpecRead::Bad => SpecRead::Bad,
                        },
                        SpecRead::Short => SpecRead::Short,
                        SpecRead::Bad => SpecRead::Bad,
                    },
                    SpecRead::Short => SpecRead::Short,
                    SpecRead::Bad => SpecRead::Bad,
                },
                SpecRead::Short => SpecRead::Short,
                SpecRead::Bad => SpecRead::Bad,
            },
            SpecRead::Short => SpecRead::Short,
            SpecRead::Bad => SpecRead::Bad,
        },
        SpecRead::Short => SpecRead::Short,
        SpecRead::Bad => SpecRead::Bad,
    }
}

/// Reads a snapshot in the oldest shape.
pub open spec fn spec_read_repo_v030(b: Seq<u8>, p: int) -> SpecRead<RepoModelV030> {
    spec_read_repo_common(b, p)
}

/// Reads a snapshot in the middle shape.
pub open spec fn spec_read_repo_v051(b: Seq<u8>, p: int) -> SpecRead<RepoModelV051> {
    match spec_read_repo_common(b, p) {
        SpecRead::Val { v: base, next: p6 } => match spec_read_commits(b, p6) {
            SpecRead::Val { v: commits, next: p7 } => SpecRead::Val {
                v: RepoModelV051 {
                    path: base.path,
                    status: base.status,
                    origin_url: base.origin_url,
                    unpushed_commits: base.unpushed_commits,
                    remote_updates: base.remote_updates,
                    app_version: base.app_version,
                    commits,
                },
                next: p7,
            },
            SpecRead::Short => SpecRead::Short,
            SpecRead::Bad => SpecRead::Bad,
        },
        SpecRead::Short => SpecRead::Short,
        SpecRead::Bad => SpecRead::Bad,
    }
}

/// Reads a snapshot in the current shape.
pub open spec fn spec_read_repo(b: Seq<u8>, p: int) -> SpecRead<RepoModel> {
    match spec_read_repo_v051(b, p) {
        SpecRead::Val { v: base, next: p7 } => match spec_read_languages(b, p7) {
            SpecRead::Val { v: languages, next: p8 } => SpecRead::Val {
                v: RepoModel {
                    path: base.path,
                    status: base.status,
                    origin_url: base.origin_url,
                    unpushed_commits: base.unpushed_commits,
                    remote_updates: base.remote_updates,
                    app_version: base.app_version,
                    commits: base.commits,
                    languages,
                },
                next: p8,
            },
            SpecRead::Short => SpecRead::Short,
            SpecRead::Bad => SpecRead::Bad,
        },
        SpecRead::Short => SpecRead::Short,
        SpecRead::Bad => SpecRead::Bad,
    }
}

/// Reads a summary record.
pub open spec fn spec_read_summary(b: Seq<u8>, p: int) -> SpecRead<SummaryModel> {
    match spec_read_string(b, p) {
        SpecRead::Val { v: path, next: p1 } => match spec_read_string(b, p1) {
            SpecRead::Val { v: origin_url, next: p2 } => match spec_read_u32(b, p2) {
                SpecRead::Val { v: status_bits, next: p3 } => match spec_read_u32(b, p3) {
                    SpecRead::Val { v: unpushed_bits, next: p4 } => match spec_read_u32(b, p4) {
                        SpecRead::Val { v: remote_bits, next: p5 } => match spec_read_version(
                            b,
                            p5,
                        ) {
                            SpecRead::Val { v: app_version, next: p6 } => SpecRead::Val {
                                v: SummaryModel {
                                    path,
                                    origin_url,
                                    status_lines: spec_u32_to_i32(status_bits) as int,
                                    unpushed_commits_lines: spec_u32_to_i32(unpushed_bits) as int,
                                    remote_updates_lines: spec_u32_to_i32(remote_bits) as int,
                                    app_version,
                                },
                                next: p6,
                            },
                            SpecRead::Short => SpecRead::Short,
                            SpecRead::Bad => SpecRead::Bad,
                        },
                        SpecRead::Short => SpecRead::Short,
                        SpecRead::Bad => SpecRead::Bad,
                    },
                    SpecRead::Short => SpecRead::Short,
                    SpecRead::Bad => SpecRead::Bad,
                },
                SpecRead::Short => SpecRead::Short,
                SpecRead::Bad => SpecRead::Bad,
            },
            SpecRead::Short => SpecRead::Short,
            SpecRead::Bad => SpecRead::Bad,
        },
        SpecRead::Short => SpecRead::Short,
        SpecRead::Bad => SpecRead::Bad,
    }
}

/// The in-memory upgrade of a middle-shape record: language statistics
/// become absent, nothing else changes.
pub open spec fn spec_upgrade_v051(m: RepoModelV051) -> RepoModel {
    RepoModel {
        path: m.path,
        status: m.status,
        origin_url: m.origin_url,
        unpushed_commits: m.unpushed_commits,
        remote_updates: m.remote_updates,
        app_version: m.app_version,
        commits: m.commits,
        languages: None,
    }
}

/// The in-memory upgrade of an oldest-shape record: commit history and
/// language statistics become absent, nothing else changes.
pub open spec fn spec_upgrade_v030(m: RepoModelV030) -> RepoModel {
    RepoModel {
        path: m.path,
        status: m.status,
        origin_url: m.origin_url,
        unpushed_commits: m.unpushed_commits,
        remote_updates: m.remote_updates,
        app_version: m.app_version,
        commits: None,
        languages: None,
    }
}

/// The versioned decode: the newest shape first; on bytes that run out
/// early, the next older shape; a malformed field is never retried.
pub open spec fn spec_decode_repo(b: Seq<u8>) -> Result<(RepoModel, RecordShape), DecodeError> {
    match spec_read_repo(b, 0) {
        SpecRead::Val { v, next } => Ok((v, RecordShape::Current)),
        SpecRead::Bad => Err(DecodeError::Corrupt),
        SpecRead::Short => match spec_read_repo_v051(b, 0) {
            SpecRead::Val { v, next } => Ok((spec_upgrade_v051(v), RecordShape::V051)),
            SpecRead::Bad => Err(DecodeError::Corrupt),
            SpecRead::Short => match spec_read_repo_v030(b, 0) {
                SpecRead::Val { v, next } => Ok((spec_upgrade_v030(v), RecordShape::V030)),
                SpecRead::Bad => Err(DecodeError::Corrupt),
                SpecRead::Short => Err(DecodeError::Truncated),
            },
        },
    }
}

/// Decode of a summary record; summaries have a single shape.
pub open spec fn spec_decode_summary(b: Seq<u8>) -> Result<SummaryModel, DecodeError> {
    match spec_read_summary(b, 0) {
        SpecRead::Val { v, next } => Ok(v),
        SpecRead::Short => Err(DecodeError::Truncated),
        SpecRead::Bad => Err(DecodeError::Corrupt),
    }
}

/// Encodes a snapshot in the current shape.
pub fn encode_repo(r: &GitRepoInfo) -> (out: Vec<u8>)
    ensures
        out@ == spec_encode_repo(r@),
{
    let mut out: Vec<u8> = Vec::new();
    write_string(&mut out, &r.path);
    write_string(&mut out, &r.status);
    write_string(&mut out, &r.origin_url);
    write_string(&mut out, &r.unpushed_commits);
    write_string(&mut out, &r.remote_updates);
    write_version(&mut out, &r.app_version);
    write_commits(&mut out, &r.commits);
    write_languages(&mut out, &r.languages);
    proof {
        assert(out@ =~= spec_encode_repo(r@));
    }
    out
}

/// Encodes a snapshot in the middle historical shape, as an older build
/// of the tool would have written it.
pub fn encode_repo_v051(r: &GitRepoInfoV051) -> (out: Vec<u8>)
    ensures
        out@ == spec_encode_repo_v051(r@),
{
    let mut out: Vec<u8> = Vec::new();
    write_string(&mut out, &r.path);
    write_string(&mut out, &r.status);
    write_string(&mut out, &r.origin_url);
    write_string(&mut out, &r.unpushed_commits);
    write_string(&mut out, &r.remote_updates);
    write_version(&mut out, &r.app_version);
    write_commits(&mut out, &r.commits);
    proof {
        assert(out@ =~= spec_encode_repo_v051(r@));
    }
    out
}

/// Encodes a snapshot in the oldest historical shape.
pub fn encode_repo_v030(r: &GitRepoInfoV030) -> (out: Vec<u8>)
    ensures
        out@ == spec_encode_repo_v030(r@),
{
    let mut out: Vec<u8> = Vec::new();
    write_string(&mut out, &r.path);
    write_string(&mut out, &r.status);
    write_string(&mut out, &r.origin_url);
    write_string(&mut out, &r.unpushed_commits);
    write_string(&mut out, &r.remote_updates);
    write_version(&mut out, &r.app_version);
    proof {
        assert(out@ =~= spec_encode_repo_v030(r@));
    }
    out
}

/// Encodes a summary record.
pub fn encode_summary(r: &GitRepoSummary) -> (out: Vec<u8>)
    ensures
        out@ == spec_encode_summary(r@),
{
    let mut out: Vec<u8> = Vec::new();
    write_string(&mut out, &r.path);
    write_string(&mut out, &r.origin_url);
    write_u32(&mut out, i32_to_u32(r.status_lines));
    write_u32(&mut out, i32_to_u32(r.unpushed_commits_lines));
    write_u32(&mut out, i32_to_u32(r.remote_updates_lines));
    write_version(&mut out, &r.app_version);
    proof {
        assert(out@ =~= spec_encode_summary(r@));
    }
    out
}

fn read_repo_common(b: &Vec<u8>, pos: &mut usize) -> (r: Result<GitRepoInfoV030, DecodeError>)
    requires
        *old(pos) <= b@.len(),
    ensures
        *final(pos) <= b@.len(),
        match r {
            Ok(m) => spec_read_repo_common(b@, *old(pos) as int) == (SpecRead::Val {
                v: m@,
                next: *final(pos) as int,
            }),
            Err(e) => (spec_read_repo_common(b@, *old(pos) as int) is Short && e
                == DecodeError::Truncated) || (spec_read_repo_common(b@, *old(pos) as int) is Bad
                && e == DecodeError::Corrupt),
        },
{
    let path = match read_string(b, pos) {
        Ok(v) => v,
        Err(e) => {
            return Err(e);
        },
    };
    let status = match read_string(b, pos) {
        Ok(v) => v,
        Err(e) => {
            return Err(e);
        },
    };
    let origin_url = match read_string(b, pos) {
        Ok(v) => v,
        Err(e) => {
            return Err(e);
        },
    };
    let unpushed_commits = match read_string(b, pos) {
        Ok(v) => v,
        Err(e) => {
            return Err(e);
        },
    };
    let remote_updates = match read_string(b, pos) {
        Ok(v) => v,
        Err(e) => {
            return Err(e);
        },
    };
    let app_version = match read_version(b, pos) {
        Ok(v) => v,
        Err(e) => {
            return Err(e);
        },
    };
    Ok(
        GitRepoInfoV030 {
            path,
            status,
            origin_url,
            unpushed_commits,
            remote_updates,
            app_version,
        },
    )
}

fn read_repo_v051(b: &Vec<u8>, pos: &mut usize) -> (r: Result<GitRepoInfoV051, DecodeError>)
    requires
        *old(pos) <= b@.len(),
    ensures
        *final(pos) <= b@.len(),
        match r {
            Ok(m) => spec_read_repo_v051(b@, *old(pos) as int) == (SpecRead::Val {
                v: m@,
                next: *final(pos) as int,
            }),
            Err(e) => (spec_read_repo_v051(b@, *old(pos) as int) is Short && e
                == DecodeError::Truncated) || (spec_read_repo_v051(b@, *old(pos) as int) is Bad
                && e == DecodeError::Corrupt),
        },
{
    let base = match read_repo_common(b, pos) {
        Ok(v) => v,
        Err(e) => {
            return Err(e);
        },
    };
    let commits = match read_commits(b, pos) {
        Ok(v) => v,
        Err(e) => {
            return Err(e);
        },
    };
    Ok(
        GitRepoInfoV051 {
            path: base.path,
            status: base.status,
            origin_url: base.origin_url,
            unpushed_commits: base.unpushed_commits,
            remote_updates: base.remote_updates,
            app_version: base.app_version,
            commits,
        },
    )
}

fn read_repo(b: &Vec<u8>, pos: &mut usize) -> (r: Result<GitRepoInfo, DecodeError>)
    requires
        *old(pos) <= b@.len(),
    ensures
        *final(pos) <= b@.len(),
        match r {
            Ok(m) => spec_read_repo(b@, *old(pos) as int) == (SpecRead::Val {
                v: m@,
                next: *final(pos) as int,
            }),
            Err(e) => (spec_read_repo(b@, *old(pos) as int) is Short && e
                == DecodeError::Truncated) || (spec_read_repo(b@, *old(pos) as int) is Bad && e
                == DecodeError::Corrupt),
        },
{
    let base = match read_repo_v051(b, pos) {
        Ok(v) => v,
        Err(e) => {
            return Err(e);
        },
    };
    let languages = match read_languages(b, pos) {
        Ok(v) => v,
        Err(e) => {
            return Err(e);
        },
    };
    Ok(
        GitRepoInfo {
            path: base.path,
            status: base.status,
            origin_url: base.origin_url,
            unpushed_commits: base.unpushed_commits,
            remote_updates: base.remote_updates,
            app_version: base.app_version,
            commits: base.commits,
            languages,
        },
    )
}

/// Decodes a snapshot, trying the current shape, then the middle one,
/// then the oldest, falling back exactly when the bytes run out early.
/// A decoded older shape comes back upgraded, with the missing fields
/// absent, and the shape it was found in.
pub fn decode_repo(b: &Vec<u8>) -> (r: Result<(GitRepoInfo, RecordShape), DecodeError>)
    ensures
        match r {
            Ok(p) => spec_decode_repo(b@) == Ok::<(RepoModel, RecordShape), DecodeError>(
                (p.0@, p.1),
            ),
            Err(e) => spec_decode_repo(b@) == Err::<(RepoModel, RecordShape), DecodeError>(e),
        },
{
    let mut pos: usize = 0;
    match read_repo(b, &mut pos) {
        Ok(repo) => {
            return Ok((repo, RecordShape::Current));
        },
        Err(DecodeError::Corrupt) => {
            return Err(DecodeError::Corrupt);
        },
        Err(DecodeError::Truncated) => {},
    }
    let mut pos: usize = 0;
    match read_repo_v051(b, &mut pos) {
        Ok(repo) => {
            return Ok(
                (
                    GitRepoInfo {
                        path: repo.path,
                        status: repo.status,
                        origin_url: repo.origin_url,
                        unpushed_commits: repo.unpushed_commits,
                        remote_updates: repo.remote_updates,
                        app_version: repo.app_version,
                        commits: repo.commits,
                        languages: None,
                    },
                    RecordShape::V051,
                ),
            );
        },
        Err(DecodeError::Corrupt) => {
            return Err(DecodeError::Corrupt);
        },
        Err(DecodeError::Truncated) => {},
    }
    let mut pos: usize = 0;
    match read_repo_common(b, &mut pos) {
        Ok(repo) => Ok(
            (
                GitRepoInfo {
                    path: repo.path,
                    status: repo.status,
                    origin_url: repo.origin_url,
                    unpushed_commits: repo.unpushed_commits,
                    remote_updates: repo.remote_updates,
                    app_version: repo.app_version,
                    commits: None,
                    languages: None,
                },
                RecordShape::V030,
            ),
        ),
        Err(e) => Err(e),
    }
}

/// Decodes a summary record.
pub fn decode_summary(b: &Vec<u8>) -> (r: Result<GitRepoSummary, DecodeError>)
    ensures
        match r {
            Ok(s) => spec_decode_summary(b@) == Ok::<SummaryModel, DecodeError>(s@),
            Err(e) => spec_decode_summary(b@) == Err::<SummaryModel, DecodeError>(e),
        },
{
    let mut pos: usize = 0;
    let path = match read_string(b, &mut pos) {
        Ok(v) => v,
        Err(e) => {
            return Err(e);
        },
    };
    let origin_url = match read_string(b, &mut pos) {
        Ok(v) => v,
        Err(e) => {
            return Err(e);
        },
    };
    let status_bits = match read_u32(b, &mut pos) {
        Ok(v) => v,
        Err(e) => {
            return Err(e);
        },
    };
    let unpushed_bits = match read_u32(b, &mut pos) {
        Ok(v) => v,
        Err(e) => {
            return Err(e);
        },
    };
    let remote_bits = match read_u32(b, &mut pos) {
        Ok(v) => v,
        Err(e) => {
            return Err(e);
        },
    };
    let app_version = match read_version(b, &mut pos) {
        Ok(v) => v,
        Err(e) => {
            return Err(e);
        },
    };
    Ok(
        GitRepoSummary {
            path,
            origin_url,
            status_lines: u32_to_i32(status_bits),
            unpushed_commits_lines: u32_to_i32(unpushed_bits),
            remote_updates_lines: u32_to_i32(remote_bits),
            app_version,
        },
    )
}

// ---------------------------------------------------------------------
// Round trips: what the decode chain yields on bytes this crate wrote.
// ---------------------------------------------------------------------

/// `seg` stands at position `p` of `b`.
pub open spec fn bytes_at(b: Seq<u8>, p: int, seg: Seq<u8>) -> bool {
    0 <= p && p + seg.len() <= b.len() && b.subrange(p, p + seg.len()) == seg
}

/// The string's byte length fits its length prefix.
pub open spec fn string_fits(s: Seq<char>) -> bool {
    encode_utf8(s).len() <= u64::MAX
}

/// Every string of the commit fits its length prefix.
pub open spec fn commit_fits(c: CommitModel) -> bool {
    string_fits(c.hash) && string_fits(c.author_email) && string_fits(c.message)
}

/// Every string of the language record fits its length prefix.
pub open spec fn lang_fits(l: LanguageStatModel) -> bool {
    string_fits(l.name)
}

/// Every length in an optional commit history fits its prefix.
pub open spec fn commits_fit(o: Option<Seq<CommitModel>>) -> bool {
    match o {
        None => true,
        Some(s) => s.len() <= u64::MAX && forall|i: int| 0 <= i < s.len() ==> commit_fits(#[trigger] s[i]),
    }
}

/// Every length in optional language statistics fits its prefix.
pub open spec fn languages_fit(o: Option<Seq<LanguageStatModel>>) -> bool {
    match o {
        None => true,
        Some(s) => s.len() <= u64::MAX && forall|i: int| 0 <= i < s.len() ==> lang_fits(#[trigger] s[i]),
    }
}

/// Every length in a current-shape snapshot fits its prefix. Every
/// record built from executable values satisfies this; it bounds the
/// unbounded mathematical models.
pub open spec fn repo_fits(m: RepoModel) -> bool {
    string_fits(m.path) && string_fits(m.status) && string_fits(m.origin_url) && string_fits(
        m.unpushed_commits,
    ) && string_fits(m.remote_updates) && commits_fit(m.commits) && languages_fit(m.languages)
}

/// Every length in a middle-shape snapshot fits its prefix.
pub open spec fn repo_v051_fits(m: RepoModelV051) -> bool {
    string_fits(m.path) && string_fits(m.status) && string_fits(m.origin_url) && string_fits(
        m.unpushed_commits,
    ) && string_fits(m.remote_updates) && commits_fit(m.commits)
}

/// Every length in an oldest-shape snapshot fits its prefix.
pub open spec fn repo_v030_fits(m: RepoModelV030) -> bool {
    string_fits(m.path) && string_fits(m.status) && string_fits(m.origin_url) && string_fits(
        m.unpushed_commits,
    ) && string_fits(m.remote_updates)
}

proof fn lemma_encode_u64_len(v: u64)
    ensures
        spec_encode_u64(v).len() == 8,
{
    lemma_auto_spec_u64_to_from_le_bytes();
}

proof fn lemma_encode_u32_len(v: u32)
    ensures
        spec_encode_u32(v).len() == 4,
{
    lemma_auto_spec_u32_to_from_le_bytes();
}

proof fn lemma_encode_version_len(v: SchemaVersion)
    ensures
        spec_encode_version(v).len() == 24,
{
    lemma_auto_spec_u64_to_from_le_bytes();
}

proof fn lemma_bytes_at_split(b: Seq<u8>, p: int, x: Seq<u8>, y: Seq<u8>)
    requires
        bytes_at(b, p, x + y),
    ensures
        bytes_at(b, p, x),
        bytes_at(b, p + x.len(), y),
{
    let whole = b.subrange(p, p + (x + y).len());
    assert forall|i: int| 0 <= i < x.len() implies b.subrange(p, p + x.len())[i] == x[i] by {
        assert(whole[i] == (x + y)[i]);
        assert(whole[i] == b[p + i]);
    }
    assert(b.subrange(p, p + x.len()) =~= x);
    assert forall|i: int| 0 <= i < y.len() implies b.subrange(
        p + x.len(),
        p + x.len() + y.len(),
    )[i] == y[i] by {
        assert(whole[x.len() + i] == (x + y)[x.len() + i]);
        assert(whole[x.len() + i] == b[p + x.len() + i]);
    }
    assert(b.subrange(p + x.len(), p + x.len() + y.len()) =~= y);
}

proof fn lemma_read_encoded_u64(b: Seq<u8>, p: int, v: u64)
    requires
        bytes_at(b, p, spec_encode_u64(v)),
    ensures
        spec_read_u64(b, p) == (SpecRead::Val { v, next: p + 8 }),
{
    lemma_auto_spec_u64_to_from_le_bytes();
    assert(spec_encode_u64(v).len() == 8);
    assert(b.subrange(p, p + 8) == spec_encode_u64(v));
    assert(spec_u64_from_le_bytes(spec_u64_to_le_bytes(v)) == v);
}

proof fn lemma_read_encoded_u32(b: Seq<u8>, p: int, v: u32)
    requires
        bytes_at(b, p, spec_encode_u32(v)),
    ensures
        spec_read_u32(b, p) == (SpecRead::Val { v, next: p + 4 }),
{
    lemma_auto_spec_u32_to_from_le_bytes();
    assert(spec_encode_u32(v).len() == 4);
    assert(b.subrange(p, p + 4) == spec_encode_u32(v));
    assert(spec_u32_from_le_bytes(spec_u32_to_le_bytes(v)) == v);
}

proof fn lemma_read_encoded_tag(b: Seq<u8>, p: int, t: bool)
    requires
        bytes_at(b, p, spec_encode_tag(t)),
    ensures
        spec_read_tag(b, p) == (SpecRead::Val { v: t, next: p + 1 }),
{
    let e = spec_encode_tag(t);
    assert(e.len() == 1);
    assert(b.subrange(p, p + 1) == e);
    assert(b[p] == b.subrange(p, p + 1)[0]);
    assert(e[0] == (if t { 1u8 } else { 0u8 }));
}

proof fn lemma_read_encoded_string(b: Seq<u8>, p: int, s: Seq<char>)
    requires
        bytes_at(b, p, spec_encode_string(s)),
        string_fits(s),
    ensures
        spec_read_string(b, p) == (SpecRead::Val {
            v: s,
            next: p + spec_encode_string(s).len(),
        }),
{
    let bytes = encode_utf8(s);
    let n = bytes.len() as u64;
    lemma_encode_u64_len(n);
    lemma_bytes_at_split(b, p, spec_encode_u64(n), bytes);
    lemma_read_encoded_u64(b, p, n);
    assert(n as int == bytes.len());
    assert(b.subrange(p + 8, p + 8 + n) == bytes);
    encode_utf8_valid_utf8(s);
    encode_utf8_decode_utf8(s);
}

proof fn lemma_read_encoded_version(b: Seq<u8>, p: int, v: SchemaVersion)
    requires
        bytes_at(b, p, spec_encode_version(v)),
    ensures
        spec_read_version(b, p) == (SpecRead::Val { v, next: p + 24 }),
{
    lemma_encode_u64_len(v.major);
    lemma_encode_u64_len(v.minor);
    lemma_encode_u64_len(v.patch);
    assert(spec_encode_version(v) =~= spec_encode_u64(v.major) + (spec_encode_u64(v.minor)
        + spec_encode_u64(v.patch)));
    lemma_bytes_at_split(b, p, spec_encode_u64(v.major), spec_encode_u64(v.minor) + spec_encode_u64(v.patch));
    lemma_bytes_at_split(b, p + 8, spec_encode_u64(v.minor), spec_encode_u64(v.patch));
    lemma_read_encoded_u64(b, p, v.major);
    lemma_read_encoded_u64(b, p + 8, v.minor);
    lemma_read_encoded_u64(b, p + 16, v.patch);
}

proof fn lemma_read_encoded_commit(b: Seq<u8>, p: int, c: CommitModel)
    requires
        bytes_at(b, p, spec_encode_commit(c)),
        commit_fits(c),
    ensures
        spec_read_commit(b, p) == (SpecRead::Val {
            v: c,
            next: p + spec_encode_commit(c).len(),
        }),
{
    let e1 = spec_encode_string(c.hash);
    let e2 = spec_encode_string(c.author_email);
    let e3 = spec_encode_u64(spec_i64_to_u64(c.time));
    let e4 = spec_encode_string(c.message);
    let e5 = spec_encode_u64(c.file_changes as u64);
    let e6 = spec_encode_u64(c.insertions as u64);
    let e7 = spec_encode_u64(c.deletion as u64);
    lemma_encode_u64_len(spec_i64_to_u64(c.time));
    lemma_encode_u64_len(c.file_changes as u64);
    lemma_encode_u64_len(c.insertions as u64);
    lemma_encode_u64_len(c.deletion as u64);
    assert(spec_encode_commit(c) =~= e1 + (e2 + (e3 + (e4 + (e5 + (e6 + e7))))));
    lemma_bytes_at_split(b, p, e1, e2 + (e3 + (e4 + (e5 + (e6 + e7)))));
    let p1 = p + e1.len();
    lemma_bytes_at_split(b, p1, e2, e3 + (e4 + (e5 + (e6 + e7))));
    let p2 = p1 + e2.len();
    lemma_bytes_at_split(b, p2, e3, e4 + (e5 + (e6 + e7)));
    let p3 = p2 + e3.len();
    lemma_bytes_at_split(b, p3, e4, e5 + (e6 + e7));
    let p4 = p3 + e4.len();
    lemma_bytes_at_split(b, p4, e5, e6 + e7);
    let p5 = p4 + e5.len();
    lemma_bytes_at_split(b, p5, e6, e7);
    let p6 = p5 + e6.len();
    lemma_read_encoded_string(b, p, c.hash);
    lemma_read_encoded_string(b, p1, c.author_email);
    lemma_read_encoded_u64(b, p2, spec_i64_to_u64(c.time));
    lemma_read_encoded_string(b, p3, c.message);
    lemma_read_encoded_u64(b, p4, c.file_changes as u64);
    lemma_read_encoded_u64(b, p5, c.insertions as u64);
    lemma_read_encoded_u64(b, p6, c.deletion as u64);
    lemma_i64_u64_round_trip(c.time);
}

proof fn lemma_read_encoded_commit_seq(b: Seq<u8>, p: int, s: Seq<CommitModel>)
    requires
        bytes_at(b, p, spec_encode_commit_seq(s)),
        forall|i: int| 0 <= i < s.len() ==> commit_fits(#[trigger] s[i]),
    ensures
        spec_read_commit_seq(b, p, s.len()) == (SpecRead::Val {
            v: s,
            next: p + spec_encode_commit_seq(s).len(),
        }),
    decreases s.len(),
{
    if s.len() == 0 {
        assert(spec_read_commit_seq(b, p, 0) == (SpecRead::Val { v: Seq::<CommitModel>::empty(), next: p }));
        assert(s =~= Seq::<CommitModel>::empty());
    } else {
        let e1 = spec_encode_commit(s.first());
        let rest = spec_encode_commit_seq(s.drop_first());
        lemma_bytes_at_split(b, p, e1, rest);
        lemma_read_encoded_commit(b, p, s.first());
        lemma_read_encoded_commit_seq(b, p + e1.len(), s.drop_first());
        assert(seq![s.first()] + s.drop_first() =~= s);
    }
}

proof fn lemma_read_encoded_commits(b: Seq<u8>, p: int, o: Option<Seq<CommitModel>>)
    requires
        bytes_at(b, p, spec_encode_commits(o)),
        commits_fit(o),
    ensures
        spec_read_commits(b, p) == (SpecRead::Val {
            v: o,
            next: p + spec_encode_commits(o).len(),
        }),
{
    match o {
        None => {
            lemma_read_encoded_tag(b, p, false);
        },
        Some(s) => {
            let tag = spec_encode_tag(true);
            let cnt = spec_encode_u64(s.len() as u64);
            let body = spec_encode_commit_seq(s);
            lemma_encode_u64_len(s.len() as u64);
            assert(spec_encode_commits(o) =~= tag + (cnt + body));
            lemma_bytes_at_split(b, p, tag, cnt + body);
            lemma_bytes_at_split(b, p + 1, cnt, body);
            lemma_read_encoded_tag(b, p, true);
            lemma_read_encoded_u64(b, p + 1, s.len() as u64);
            lemma_read_encoded_commit_seq(b, p + 9, s);
        },
    }
}

proof fn lemma_read_encoded_lang(b: Seq<u8>, p: int, l: LanguageStatModel)
    requires
        bytes_at(b, p, spec_encode_lang(l)),
        lang_fits(l),
    ensures
        spec_read_lang(b, p) == (SpecRead::Val { v: l, next: p + spec_encode_lang(l).len() }),
{
    let e1 = spec_encode_string(l.name);
    let e2 = spec_encode_u64(l.lines);
    let e3 = spec_encode_u64(l.code);
    let e4 = spec_encode_u64(l.comments);
    let e5 = spec_encode_u64(l.blanks);
    lemma_encode_u64_len(l.lines);
    lemma_encode_u64_len(l.code);
    lemma_encode_u64_len(l.comments);
    lemma_encode_u64_len(l.blanks);
    assert(spec_encode_lang(l) =~= e1 + (e2 + (e3 + (e4 + e5))));
    lemma_bytes_at_split(b, p, e1, e2 + (e3 + (e4 + e5)));
    let p1 = p + e1.len();
    lemma_bytes_at_split(b, p1, e2, e3 + (e4 + e5));
    let p2 = p1 + 8;
    lemma_bytes_at_split(b, p2, e3, e4 + e5);
    let p3 = p2 + 8;
    lemma_bytes_at_split(b, p3, e4, e5);
    let p4 = p3 + 8;
    lemma_read_encoded_string(b, p, l.name);
    lemma_read_encoded_u64(b, p1, l.lines);
    lemma_read_encoded_u64(b, p2, l.code);
    lemma_read_encoded_u64(b, p3, l.comments);
    lemma_read_encoded_u64(b, p4, l.blanks);
}

proof fn lemma_read_encoded_lang_seq(b: Seq<u8>, p: int, s: Seq<LanguageStatModel>)
    requires
        bytes_at(b, p, spec_encode_lang_seq(s)),
        forall|i: int| 0 <= i < s.len() ==> lang_fits(#[trigger] s[i]),
    ensures
        spec_read_lang_seq(b, p, s.len()) == (SpecRead::Val {
            v: s,
            next: p + spec_encode_lang_seq(s).len(),
        }),
    decreases s.len(),
{
    if s.len() == 0 {
        assert(s =~= Seq::<LanguageStatModel>::empty());
    } else {
        let e1 = spec_encode_lang(s.first());
        let rest = spec_encode_lang_seq(s.drop_first());
        lemma_bytes_at_split(b, p, e1, rest);
        lemma_read_encoded_lang(b, p, s.first());
        lemma_read_encoded_lang_seq(b, p + e1.len(), s.drop_first());
        assert(seq![s.first()] + s.drop_first() =~= s);
    }
}

proof fn lemma_read_encoded_languages(b: Seq<u8>, p: int, o: Option<Seq<LanguageStatModel>>)
    requires
        bytes_at(b, p, spec_encode_languages(o)),
        languages_fit(o),
    ensures
        spec_read_languages(b, p) == (SpecRead::Val {
            v: o,
            next: p + spec_encode_languages(o).len(),
        }),
{
    match o {
        None => {
            lemma_read_encoded_tag(b, p, false);
        },
        Some(s) => {
            let tag = spec_encode_tag(true);
            let cnt = spec_encode_u64(s.len() as u64);
            let body = spec_encode_lang_seq(s);
            lemma_encode_u64_len(s.len() as u64);
            assert(spec_encode_languages(o) =~= tag + (cnt + body));
            lemma_bytes_at_split(b, p, tag, cnt + body);
            lemma_bytes_at_split(b, p + 1, cnt, body);
            lemma_read_encoded_tag(b, p, true);
            lemma_read_encoded_u64(b, p + 1, s.len() as u64);
            lemma_read_encoded_lang_seq(b, p + 9, s);
        },
    }
}

proof fn lemma_read_encoded_repo_common(b: Seq<u8>, p: int, m: RepoModelV030)
    requires
        bytes_at(b, p, spec_encode_repo_v030(m)),
        repo_v030_fits(m),
    ensures
        spec_read_repo_common(b, p) == (SpecRead::Val {
            v: m,
            next: p + spec_encode_repo_v030(m).len(),
        }),
{
    let e1 = spec_encode_string(m.path);
    let e2 = spec_encode_string(m.status);
    let e3 = spec_encode_string(m.origin_url);
    let e4 = spec_encode_string(m.unpushed_commits);
    let e5 = spec_encode_string(m.remote_updates);
    let e6 = spec_encode_version(m.app_version);
    lemma_encode_version_len(m.app_version);
    assert(spec_encode_repo_v030(m) =~= e1 + (e2 + (e3 + (e4 + (e5 + e6)))));
    lemma_bytes_at_split(b, p, e1, e2 + (e3 + (e4 + (e5 + e6))));
    let p1 = p + e1.len();
    lemma_bytes_at_split(b, p1, e2, e3 + (e4 + (e5 + e6)));
    let p2 = p1 + e2.len();
    lemma_bytes_at_split(b, p2, e3, e4 + (e5 + e6));
    let p3 = p2 + e3.len();
    lemma_bytes_at_split(b, p3, e4, e5 + e6);
    let p4 = p3 + e4.len();
    lemma_bytes_at_split(b, p4, e5, e6);
    let p5 = p4 + e5.len();
    lemma_read_encoded_string(b, p, m.path);
    lemma_read_encoded_string(b, p1, m.status);
    lemma_read_encoded_string(b, p2, m.origin_url);
    lemma_read_encoded_string(b, p3, m.unpushed_commits);
    lemma_read_encoded_string(b, p4, m.remote_updates);
    lemma_read_encoded_version(b, p5, m.app_version);
}

/// The five shared facts of a middle-shape record, as an oldest-shape value.
pub open spec fn spec_base_of_v051(m: RepoModelV051) -> RepoModelV030 {
    RepoModelV030 {
        path: m.path,
        status: m.status,
        origin_url: m.origin_url,
        unpushed_commits: m.unpushed_commits,
        remote_updates: m.remote_updates,
        app_version: m.app_version,
    }
}

/// The five shared facts of a current-shape record, as a middle-shape value.
pub open spec fn spec_v051_of_repo(m: RepoModel) -> RepoModelV051 {
    RepoModelV051 {
        path: m.path,
        status: m.status,
        origin_url: m.origin_url,
        unpushed_commits: m.unpushed_commits,
        remote_updates: m.remote_updates,
        app_version: m.app_version,
        commits: m.commits,
    }
}

proof fn lemma_read_encoded_repo_v051(b: Seq<u8>, p: int, m: RepoModelV051)
    requires
        bytes_at(b, p, spec_encode_repo_v051(m)),
        repo_v051_fits(m),
    ensures
        spec_read_repo_v051(b, p) == (SpecRead::Val {
            v: m,
            next: p + spec_encode_repo_v051(m).len(),
        }),
{
    let base = spec_base_of_v051(m);
    let e1 = spec_encode_repo_v030(base);
    let e2 = spec_encode_commits(m.commits);
    assert(spec_encode_repo_v051(m) =~= e1 + e2);
    lemma_bytes_at_split(b, p, e1, e2);
    lemma_read_encoded_repo_common(b, p, base);
    lemma_read_encoded_commits(b, p + e1.len(), m.commits);
}

proof fn lemma_read_encoded_repo(b: Seq<u8>, p: int, m: RepoModel)
    requires
        bytes_at(b, p, spec_encode_repo(m)),
        repo_fits(m),
    ensures
        spec_read_repo(b, p) == (SpecRead::Val { v: m, next: p + spec_encode_repo(m).len() }),
{
    let base = spec_v051_of_repo(m);
    let e1 = spec_encode_repo_v051(base);
    let e2 = spec_encode_languages(m.languages);
    assert(spec_encode_repo(m) =~= e1 + e2);
    lemma_bytes_at_split(b, p, e1, e2);
    lemma_read_encoded_repo_v051(b, p, base);
    lemma_read_encoded_languages(b, p + e1.len(), m.languages);
}

/// Round trip of the current shape: bytes written by `encode_repo`
/// decode to the same snapshot, recognized as current. For any valid
/// current-shape snapshot, writing then reading returns it unchanged.
pub proof fn lemma_decode_encode_repo(m: RepoModel)
    requires
        repo_fits(m),
    ensures
        spec_decode_repo(spec_encode_repo(m)) == Ok::<(RepoModel, RecordShape), DecodeError>(
            (m, RecordShape::Current),
        ),
{
    let b = spec_encode_repo(m);
    assert(b.subrange(0, b.len() as int) =~= b);
    lemma_read_encoded_repo(b, 0, m);
}

/// Backward compatibility across one step: bytes written in the middle
/// shape decode through the fallback chain, upgraded with language
/// statistics absent, never empty.
pub proof fn lemma_decode_encode_repo_v051(m: RepoModelV051)
    requires
        repo_v051_fits(m),
    ensures
        spec_decode_repo(spec_encode_repo_v051(m)) == Ok::<(RepoModel, RecordShape), DecodeError>(
            (spec_upgrade_v051(m), RecordShape::V051),
        ),
{
    let b = spec_encode_repo_v051(m);
    assert(b.subrange(0, b.len() as int) =~= b);
    lemma_read_encoded_repo_v051(b, 0, m);
    // The current-shape attempt runs out of bytes at the language tag.
    assert(spec_read_languages(b, b.len() as int) is Short);
}

/// Backward compatibility to the oldest shape: bytes written with only
/// the five text facts and the version decode through the fallback
/// chain, upgraded with commit history and language statistics absent,
/// never empty.
pub proof fn lemma_decode_encode_repo_v030(m: RepoModelV030)
    requires
        repo_v030_fits(m),
    ensures
        spec_decode_repo(spec_encode_repo_v030(m)) == Ok::<(RepoModel, RecordShape), DecodeError>(
            (spec_upgrade_v030(m), RecordShape::V030),
        ),
{
    let b = spec_encode_repo_v030(m);
    assert(b.subrange(0, b.len() as int) =~= b);
    lemma_read_encoded_repo_common(b, 0, m);
    // Both newer attempts run out of bytes at the commit-history tag.
    assert(spec_read_commits(b, b.len() as int) is Short);
    assert(spec_read_languages(b, b.len() as int) is Short);
}

/// A summary record fits its length prefixes.
pub open spec fn summary_fits(m: SummaryModel) -> bool {
    string_fits(m.path) && string_fits(m.origin_url) && i32::MIN <= m.status_lines <= i32::MAX
        && i32::MIN <= m.unpushed_commits_lines <= i32::MAX && i32::MIN
        <= m.remote_updates_lines <= i32::MAX
}

/// Round trip of a summary record.
pub proof fn lemma_decode_encode_summary(m: SummaryModel)
    requires
        summary_fits(m),
    ensures
        spec_decode_summary(spec_encode_summary(m)) == Ok::<SummaryModel, DecodeError>(m),
{
    let b = spec_encode_summary(m);
    assert(b.subrange(0, b.len() as int) =~= b);
    let e1 = spec_encode_string(m.path);
    let e2 = spec_encode_string(m.origin_url);
    let e3 = spec_encode_u32(spec_i32_to_u32(m.status_lines as i32));
    let e4 = spec_encode_u32(spec_i32_to_u32(m.unpushed_commits_lines as i32));
    let e5 = spec_encode_u32(spec_i32_to_u32(m.remote_updates_lines as i32));
    let e6 = spec_encode_version(m.app_version);
    lemma_encode_u32_len(spec_i32_to_u32(m.status_lines as i32));
    lemma_encode_u32_len(spec_i32_to_u32(m.unpushed_commits_lines as i32));
    lemma_encode_u32_len(spec_i32_to_u32(m.remote_updates_lines as i32));
    lemma_encode_version_len(m.app_version);
    assert(spec_encode_summary(m) =~= e1 + (e2 + (e3 + (e4 + (e5 + e6)))));
    lemma_bytes_at_split(b, 0, e1, e2 + (e3 + (e4 + (e5 + e6))));
    let p1 = 0 + e1.len() as int;
    lemma_bytes_at_split(b, p1, e2, e3 + (e4 + (e5 + e6)));
    let p2 = p1 + e2.len();
    lemma_bytes_at_split(b, p2, e3, e4 + (e5 + e6));
    let p3 = p2 + 4;
    lemma_bytes_at_split(b, p3, e4, e5 + e6);
    let p4 = p3 + 4;
    lemma_bytes_at_split(b, p4, e5, e6);
    let p5 = p4 + 4;
    lemma_read_encoded_string(b, 0, m.path);
    lemma_read_encoded_string(b, p1, m.origin_url);
    lemma_read_encoded_u32(b, p2, spec_i32_to_u32(m.status_lines as i32));
    lemma_read_encoded_u32(b, p3, spec_i32_to_u32(m.unpushed_commits_lines as i32));
    lemma_read_encoded_u32(b, p4, spec_i32_to_u32(m.remote_updates_lines as i32));
    lemma_read_encoded_version(b, p5, m.app_version);
    lemma_i32_u32_round_trip(m.status_lines as i32);
    lemma_i32_u32_round_trip(m.unpushed_commits_lines as i32);
    lemma_i32_u32_round_trip(m.remote_updates_lines as i32);
}

} // verus!\n