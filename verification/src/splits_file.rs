//! The in-memory model of a run and its serialized form.
//!
//! [`RunData`] holds a run definition - a name of the shape
//! `title[:subtitle]`, the ordered split names, and the recorded attempts -
//! and converts it to and from the byte layout of [`crate::codec`]. Names
//! are byte strings: the file format length-prefixes and stores them as raw
//! bytes (UTF-8 by convention), so the library keeps them as bytes too.

use vstd::prelude::*;

use crate::codec::{
    dec_attempts, dec_bits, dec_splits, enc_attempts, enc_bits, enc_str, enc_strs, is_first_long_split,
    is_first_oversized_attempt, lemma_enc_attempts_app, lemma_enc_bits_app, lemma_enc_strs_app,
    lemma_first_long_split_unique, lemma_first_oversized_attempt_unique, spec_decode, spec_encode,
    spec_encode_err, spec_signature, AttemptModel, EncodeErr, ParseErr, RunModel, FORMAT_VERSION,
    MAX_LEN,
};
use crate::clock::{interval_double_bits, secs_to_double_bits};
use crate::interval::{interval_sum, lemma_interval_sum_take_le, lemma_interval_sum_take_succ, max_interval_nanos, Interval, NANOS_PER_SEC};

verus! {

/// The byte that separates the title from the subtitle in a run name.
pub const NAME_SEPARATOR: u8 = 58;

/// One recorded attempt: its total duration and the split times that were
/// recorded for it, each the bit pattern of an IEEE-754 double giving that
/// split's length in seconds.
#[derive(Debug, PartialEq, Eq)]
pub struct AttemptData {
    pub total_duration: Interval,
    pub split_times: Vec<u64>,
}

impl View for AttemptData {
    type V = AttemptModel;

    open spec fn view(&self) -> AttemptModel {
        AttemptModel {
            total_secs: self.total_duration.secs,
            total_nanos: self.total_duration.nanos,
            split_bits: self.split_times@,
        }
    }
}

/// A run definition plus its attempt history.
#[derive(Debug, PartialEq, Eq)]
pub struct RunData {
    pub version: u8,
    pub name: Vec<u8>,
    pub splits: Vec<Vec<u8>>,
    pub attempts: Vec<AttemptData>,
}

/// The split names of a run, as mathematics.
pub open spec fn deep_names(vs: Seq<Vec<u8>>) -> Seq<Seq<u8>> {
    vs.map_values(|v: Vec<u8>| v@)
}

impl View for RunData {
    type V = RunModel;

    open spec fn view(&self) -> RunModel {
        RunModel {
            version: self.version,
            name: self.name@,
            splits: deep_names(self.splits@),
            attempts: self.attempts@.map_values(|a: AttemptData| a@),
        }
    }
}

/// An error from the host's input/output layer, carried through unchanged.
#[verifier::external_type_specification]
#[verifier::external_body]
pub struct ExIoError(std::io::Error);

/// Everything that can go wrong around a run file: a host input/output
/// failure, a parse failure, or a run that cannot be serialized.
#[derive(Debug)]
pub enum RunDataFileError {
    IOError(std::io::Error),
    ParseError(ParseErr),
    ByteGenError(EncodeErr),
}

impl From<std::io::Error> for RunDataFileError {
    fn from(err: std::io::Error) -> (r: Self)
        ensures
            r == RunDataFileError::IOError(err),
    {
        RunDataFileError::IOError(err)
    }
}

impl vstd::std_specs::convert::FromSpecImpl<std::io::Error> for RunDataFileError {
    open spec fn obeys_from_spec() -> bool {
        true
    }

    open spec fn from_spec(t: std::io::Error) -> Self {
        RunDataFileError::IOError(t)
    }
}

impl From<ParseErr> for RunDataFileError {
    fn from(err: ParseErr) -> (r: Self)
        ensures
            r == RunDataFileError::ParseError(err),
    {
        RunDataFileError::ParseError(err)
    }
}

impl vstd::std_specs::convert::FromSpecImpl<ParseErr> for RunDataFileError {
    open spec fn obeys_from_spec() -> bool {
        true
    }

    open spec fn from_spec(t: ParseErr) -> Self {
        RunDataFileError::ParseError(t)
    }
}

impl From<EncodeErr> for RunDataFileError {
    fn from(err: EncodeErr) -> (r: Self)
        ensures
            r == RunDataFileError::ByteGenError(err),
    {
        RunDataFileError::ByteGenError(err)
    }
}

impl vstd::std_specs::convert::FromSpecImpl<EncodeErr> for RunDataFileError {
    open spec fn obeys_from_spec() -> bool {
        true
    }

    open spec fn from_spec(t: EncodeErr) -> Self {
        RunDataFileError::ByteGenError(t)
    }
}

/// `i` is the position of the first separator byte in `name`.
pub open spec fn is_first_separator(name: Seq<u8>, i: int) -> bool {
    &&& 0 <= i < name.len()
    &&& name[i] == NAME_SEPARATOR
    &&& forall|j: int| 0 <= j < i ==> name[j] != NAME_SEPARATOR
}

/// The title part of a run name: everything before the first separator, or
/// the whole name when there is none.
pub open spec fn title_of(name: Seq<u8>) -> Seq<u8> {
    if exists|i: int| is_first_separator(name, i) {
        name.take(choose|i: int| is_first_separator(name, i))
    } else {
        name
    }
}

/// The subtitle part of a run name: everything after the first separator,
/// or absent when there is no separator or nothing follows it.
pub open spec fn subtitle_of(name: Seq<u8>) -> Option<Seq<u8>> {
    if exists|i: int| is_first_separator(name, i) {
        let i = choose|i: int| is_first_separator(name, i);
        if i + 1 < name.len() {
            Some(name.skip(i + 1))
        } else {
            None
        }
    } else {
        None
    }
}

/// At most one position is the first separator.
pub proof fn lemma_first_separator_unique(name: Seq<u8>, i: int, j: int)
    requires
        is_first_separator(name, i),
        is_first_separator(name, j),
    ensures
        i == j,
{
}

/// The bytes of `v` from `from` (inclusive) to `to` (exclusive), copied.
fn copy_range(v: &Vec<u8>, from: usize, to: usize) -> (r: Vec<u8>)
    requires
        from <= to <= v@.len(),
    ensures
        r@ == v@.subrange(from as int, to as int),
{
    let mut r: Vec<u8> = Vec::new();
    let mut i: usize = from;
    while i < to
        invariant
            from <= i <= to <= v@.len(),
            r@ == v@.subrange(from as int, i as int),
        decreases to - i,
    {
        r.push(v[i]);
        i = i + 1;
        assert(r@ =~= v@.subrange(from as int, i as int));
    }
    r
}

/// Append every byte of `src` to `dst`.
fn push_bytes(dst: &mut Vec<u8>, src: &Vec<u8>)
    ensures
        final(dst)@ == old(dst)@ + src@,
{
    let mut i: usize = 0;
    while i < src.len()
        invariant
            i <= src@.len(),
            dst@ == old(dst)@ + src@.take(i as int),
        decreases src@.len() - i,
    {
        dst.push(src[i]);
        i = i + 1;
        assert(old(dst)@ + src@.take(i as int) =~= (old(dst)@ + src@.take(i as int - 1)).push(
            src@[i as int - 1],
        ));
    }
    assert(dst@ =~= old(dst)@ + src@);
}

/// The position of the first separator byte in `name`, if any.
fn find_separator(name: &Vec<u8>) -> (r: Option<usize>)
    ensures
        match r {
            Some(i) => is_first_separator(name@, i as int),
            None => forall|j: int| 0 <= j < name@.len() ==> name@[j] != NAME_SEPARATOR,
        },
{
    let mut i: usize = 0;
    while i < name.len()
        invariant
            i <= name@.len(),
            forall|j: int| 0 <= j < i ==> name@[j] != NAME_SEPARATOR,
        decreases name@.len() - i,
    {
        if name[i] == NAME_SEPARATOR {
            return Some(i);
        }
        i = i + 1;
    }
    None
}

/// Read `count` 8-byte split times from `content` starting at `start`,
/// exactly as [`dec_bits`] describes.
fn parse_bits(content: &Vec<u8>, start: usize, count: usize) -> (r: Result<
    (Vec<u64>, usize),
    ParseErr,
>)
    requires
        start <= content@.len(),
    ensures
        r is Ok ==> dec_bits(content@, start as int, count as int) == Ok::<
            (Seq<u64>, int),
            ParseErr,
        >(((r->Ok_0).0@, (r->Ok_0).1 as int)) && start <= (r->Ok_0).1 <= content@.len(),
        r is Err ==> dec_bits(content@, start as int, count as int) == Err::<
            (Seq<u64>, int),
            ParseErr,
        >(r->Err_0),
{
    let n = content.len();
    let mut bits: Vec<u64> = Vec::new();
    let mut offset: usize = start;
    let mut k: usize = 0;
    while k < count
        invariant
            start <= offset <= n,
            n == content@.len(),
            k <= count,
            dec_bits(content@, start as int, count as int) == (match dec_bits(
                content@,
                offset as int,
                count - k,
            ) {
                Ok(pair) => Ok::<(Seq<u64>, int), ParseErr>((bits@ + pair.0, pair.1)),
                Err(e) => Err(e),
            }),
        decreases count - k,
    {
        if n - offset < 8 {
            return Err(ParseErr::InvalidAttemptsChunk);
        }
        let chunk = vstd::slice::slice_subrange(content.as_slice(), offset, offset + 8);
        let x = vstd::bytes::u64_from_le_bytes(chunk);
        let ghost bits_before = bits@;
        bits.push(x);
        proof {
            let inner = dec_bits(content@, offset + 8, count - k - 1);
            if inner is Ok {
                assert(bits_before + (seq![x] + inner->Ok_0.0) =~= bits@ + inner->Ok_0.0);
            }
        }
        offset = offset + 8;
        k = k + 1;
    }
    proof {
        assert(bits@ + Seq::<u64>::empty() =~= bits@);
    }
    Ok((bits, offset))
}

/// Read `count` length-prefixed split names from `content` starting at
/// `start`, exactly as [`dec_splits`] describes.
fn parse_names(content: &Vec<u8>, start: usize, count: usize) -> (r: Result<
    (Vec<Vec<u8>>, usize),
    ParseErr,
>)
    requires
        start <= content@.len(),
    ensures
        r is Ok ==> dec_splits(content@, start as int, count as int) == Ok::<
            (Seq<Seq<u8>>, int),
            ParseErr,
        >((deep_names((r->Ok_0).0@), (r->Ok_0).1 as int)) && start <= (r->Ok_0).1
            <= content@.len(),
        r is Err ==> dec_splits(content@, start as int, count as int) == Err::<
            (Seq<Seq<u8>>, int),
            ParseErr,
        >(r->Err_0),
{
    let n = content.len();
    let mut names: Vec<Vec<u8>> = Vec::new();
    let mut offset: usize = start;
    let mut k: usize = 0;
    while k < count
        invariant
            start <= offset <= n,
            n == content@.len(),
            k <= count,
            dec_splits(content@, start as int, count as int) == (match dec_splits(
                content@,
                offset as int,
                count - k,
            ) {
                Ok(pair) => Ok::<(Seq<Seq<u8>>, int), ParseErr>(
                    (deep_names(names@) + pair.0, pair.1),
                ),
                Err(e) => Err(e),
            }),
        decreases count - k,
    {
        if offset >= n {
            return Err(ParseErr::InvalidSplitsChunk);
        }
        let l = content[offset] as usize;
        if n - (offset + 1) < l {
            return Err(ParseErr::InvalidSplitsChunk);
        }
        let name = copy_range(content, offset + 1, offset + 1 + l);
        let ghost names_before = names@;
        names.push(name);
        proof {
            let inner = dec_splits(content@, offset + 1 + l, count - k - 1);
            if inner is Ok {
                assert(deep_names(names@) =~= deep_names(names_before).push(name@));
                assert(deep_names(names_before) + (seq![name@] + inner->Ok_0.0) =~= deep_names(
                    names@,
                ) + inner->Ok_0.0);
            }
        }
        offset = offset + 1 + l;
        k = k + 1;
    }
    proof {
        assert(deep_names(names@) + Seq::<Seq<u8>>::empty() =~= deep_names(names@));
    }
    Ok((names, offset))
}

/// Read `count` attempts from `content` starting at `start`, exactly as
/// [`dec_attempts`] describes.
fn parse_attempts(content: &Vec<u8>, start: usize, count: usize) -> (r: Result<
    (Vec<AttemptData>, usize),
    ParseErr,
>)
    requires
        start <= content@.len(),
    ensures
        r is Ok ==> dec_attempts(content@, start as int, count as int) == Ok::<
            (Seq<AttemptModel>, int),
            ParseErr,
        >(((r->Ok_0).0@.map_values(|a: AttemptData| a@), (r->Ok_0).1 as int)) && start
            <= (r->Ok_0).1 <= content@.len(),
        r is Ok ==> forall|i: int|
            0 <= i < (r->Ok_0).0@.len() ==> (#[trigger] (r->Ok_0).0@[i]).total_duration.wf(),
        r is Err ==> dec_attempts(content@, start as int, count as int) == Err::<
            (Seq<AttemptModel>, int),
            ParseErr,
        >(r->Err_0),
{
    let n = content.len();
    let mut attempts: Vec<AttemptData> = Vec::new();
    let mut offset: usize = start;
    let mut k: usize = 0;
    while k < count
        invariant
            start <= offset <= n,
            n == content@.len(),
            k <= count,
            forall|i: int|
                0 <= i < attempts@.len() ==> (#[trigger] attempts@[i]).total_duration.wf(),
            dec_attempts(content@, start as int, count as int) == (match dec_attempts(
                content@,
                offset as int,
                count - k,
            ) {
                Ok(pair) => Ok::<(Seq<AttemptModel>, int), ParseErr>(
                    (attempts@.map_values(|a: AttemptData| a@) + pair.0, pair.1),
                ),
                Err(e) => Err(e),
            }),
        decreases count - k,
    {
        if n - offset < 13 {
            return Err(ParseErr::InvalidAttemptsChunk);
        }
        let secs_chunk = vstd::slice::slice_subrange(content.as_slice(), offset, offset + 8);
        let secs = vstd::bytes::u64_from_le_bytes(secs_chunk);
        let nanos_chunk = vstd::slice::slice_subrange(content.as_slice(), offset + 8, offset + 12);
        let nanos = vstd::bytes::u32_from_le_bytes(nanos_chunk);
        let used = content[offset + 12] as usize;
        if nanos >= NANOS_PER_SEC {
            return Err(ParseErr::InvalidAttemptsChunk);
        }
        match parse_bits(content, offset + 13, used) {
            Err(e) => {
                return Err(e);
            },
            Ok((bits, mid)) => {
                let attempt = AttemptData {
                    total_duration: Interval { secs, nanos },
                    split_times: bits,
                };
                let ghost attempts_before = attempts@;
                attempts.push(attempt);
                proof {
                    let inner = dec_attempts(content@, mid as int, count - k - 1);
                    if inner is Ok {
                        assert(attempts@.map_values(|a: AttemptData| a@)
                            =~= attempts_before.map_values(|a: AttemptData| a@).push(attempt@));
                        assert(attempts_before.map_values(|a: AttemptData| a@) + (seq![attempt@]
                            + inner->Ok_0.0) =~= attempts@.map_values(|a: AttemptData| a@)
                            + inner->Ok_0.0);
                    }
                }
                offset = mid;
            },
        }
        k = k + 1;
    }
    proof {
        assert(attempts@.map_values(|a: AttemptData| a@) + Seq::<AttemptModel>::empty()
            =~= attempts@.map_values(|a: AttemptData| a@));
    }
    Ok((attempts, offset))
}

impl RunData {
    /// Every attempt's total duration is well-formed.
    pub open spec fn wf(&self) -> bool {
        forall|i: int|
            0 <= i < self.attempts@.len() ==> (#[trigger] self.attempts@[i]).total_duration.wf()
    }

    /// A fresh run with the given name and split names, no attempts, and
    /// the format version this library writes.
    pub fn new(name: Vec<u8>, splits_names: Vec<Vec<u8>>) -> (r: RunData)
        ensures
            r@.version == FORMAT_VERSION,
            r@.name == name@,
            r@.splits == deep_names(splits_names@),
            r@.attempts == Seq::<AttemptModel>::empty(),
            r.wf(),
    {
        let r = RunData { version: FORMAT_VERSION, name, splits: splits_names, attempts: Vec::new() };
        proof {
            assert(r@.attempts =~= Seq::<AttemptModel>::empty());
        }
        r
    }

    /// Append a split name, unless the split list has already outgrown the
    /// serializable cap; returns the length of the list after the append.
    pub fn add_split(&mut self, split_name: Vec<u8>) -> (r: Result<usize, ()>)
        ensures
            old(self)@.splits.len() > MAX_LEN ==> r is Err && *final(self) == *old(self),
            old(self)@.splits.len() <= MAX_LEN ==> {
                &&& r == Ok::<usize, ()>((old(self)@.splits.len() + 1) as usize)
                &&& final(self)@.splits == old(self)@.splits.push(split_name@)
                &&& final(self)@.name == old(self)@.name
                &&& final(self)@.version == old(self)@.version
                &&& final(self)@.attempts == old(self)@.attempts
            },
            final(self).wf() == old(self).wf(),
    {
        if self.splits.len() > MAX_LEN {
            return Err(());
        }
        self.splits.push(split_name);
        proof {
            assert(final(self)@.splits =~= old(self)@.splits.push(split_name@));
        }
        Ok(self.splits.len())
    }

    /// The title: the run name up to the first separator byte.
    pub fn get_title(&self) -> (r: Vec<u8>)
        ensures
            r@ == title_of(self.name@),
    {
        match find_separator(&self.name) {
            Some(i) => {
                proof {
                    let w = choose|w: int| is_first_separator(self.name@, w);
                    lemma_first_separator_unique(self.name@, w, i as int);
                }
                copy_range(&self.name, 0, i)
            },
            None => copy_range(&self.name, 0, self.name.len()),
        }
    }

    /// The subtitle: the run name after the first separator byte, absent
    /// when there is no separator or nothing follows it.
    pub fn get_subtitle(&self) -> (r: Option<Vec<u8>>)
        ensures
            match r {
                Some(v) => subtitle_of(self.name@) == Some(v@),
                None => subtitle_of(self.name@) is None,
            },
    {
        match find_separator(&self.name) {
            Some(i) => {
                proof {
                    let w = choose|w: int| is_first_separator(self.name@, w);
                    lemma_first_separator_unique(self.name@, w, i as int);
                }
                let n = self.name.len();
                assert(i < n);
                if i + 1 >= n {
                    None
                } else {
                    let sub = copy_range(&self.name, i + 1, self.name.len());
                    proof {
                        assert(sub@ =~= self.name@.skip(i + 1));
                    }
                    Some(sub)
                }
            },
            None => None,
        }
    }

    /// Replace the title, keeping any existing subtitle.
    pub fn set_title(&mut self, title: &Vec<u8>)
        ensures
            final(self)@.name == match subtitle_of(old(self)@.name) {
                Some(st) => title@ + seq![NAME_SEPARATOR] + st,
                None => title@,
            },
            final(self)@.splits == old(self)@.splits,
            final(self)@.attempts == old(self)@.attempts,
            final(self)@.version == old(self)@.version,
            final(self).wf() == old(self).wf(),
    {
        let sub = self.get_subtitle();
        let mut new_name = copy_range(title, 0, title.len());
        proof {
            assert(new_name@ =~= title@);
        }
        match sub {
            Some(st) => {
                new_name.push(NAME_SEPARATOR);
                push_bytes(&mut new_name, &st);
                proof {
                    assert(new_name@ =~= title@ + seq![NAME_SEPARATOR]
                        + subtitle_of(old(self)@.name)->Some_0);
                }
            },
            None => {},
        }
        self.name = new_name;
    }

    /// Replace the subtitle; an empty subtitle collapses the name back to
    /// the bare title.
    pub fn set_subtitle(&mut self, subtitle: &Vec<u8>)
        ensures
            final(self)@.name == if subtitle@.len() == 0 {
                title_of(old(self)@.name)
            } else {
                title_of(old(self)@.name) + seq![NAME_SEPARATOR] + subtitle@
            },
            final(self)@.splits == old(self)@.splits,
            final(self)@.attempts == old(self)@.attempts,
            final(self)@.version == old(self)@.version,
            final(self).wf() == old(self).wf(),
    {
        let mut new_name = self.get_title();
        if subtitle.len() > 0 {
            new_name.push(NAME_SEPARATOR);
            push_bytes(&mut new_name, subtitle);
            proof {
                assert(new_name@ =~= title_of(old(self)@.name) + seq![NAME_SEPARATOR] + subtitle@);
            }
        }
        self.name = new_name;
    }

    /// The full run name, `title[:subtitle]`.
    pub fn get_name(&self) -> (r: &Vec<u8>)
        ensures
            r@ == self@.name,
    {
        &self.name
    }

    /// Every split name paired with its position.
    pub fn get_indexed_split_names(&self) -> (r: Vec<(usize, Vec<u8>)>)
        ensures
            r@.len() == self@.splits.len(),
            forall|i: int|
                0 <= i < r@.len() ==> (#[trigger] r@[i]).0 == i && r@[i].1@ == self@.splits[i],
    {
        let mut r: Vec<(usize, Vec<u8>)> = Vec::new();
        let mut i: usize = 0;
        while i < self.splits.len()
            invariant
                i <= self.splits@.len(),
                r@.len() == i,
                forall|j: int| 0 <= j < i ==> (#[trigger] r@[j]).0 == j && r@[j].1@ == self@.splits[j],
            decreases self.splits@.len() - i,
        {
            let name = copy_range(&self.splits[i], 0, self.splits[i].len());
            proof {
                assert(name@ =~= self.splits@[i as int]@);
            }
            r.push((i, name));
            i = i + 1;
        }
        r
    }

    /// Serialize the run into the byte layout of [`crate::codec`], or
    /// report exactly which cap the run breaks: the first violation in the
    /// order the fields are written.
    pub fn as_bytes(&self) -> (r: Result<Vec<u8>, EncodeErr>)
        ensures
            spec_encode_err(self@) is None ==> r is Ok && (r->Ok_0)@ == spec_encode(self@),
            spec_encode_err(self@) is Some ==> r == Err::<Vec<u8>, EncodeErr>(
                spec_encode_err(self@)->Some_0,
            ),
    {
        let mut bytes: Vec<u8> = Vec::new();
        bytes.push(98);
        bytes.push(115);
        bytes.push(115);
        bytes.push(69);
        bytes.push(self.version);
        proof {
            assert(bytes@ =~= spec_signature() + seq![self@.version]);
        }

        if self.name.len() > MAX_LEN {
            return Err(EncodeErr::NameTooLong);
        }
        bytes.push(self.name.len() as u8);
        push_bytes(&mut bytes, &self.name);
        let ghost header = spec_signature() + seq![self@.version] + enc_str(self@.name);
        proof {
            assert(bytes@ =~= header);
        }

        if self.splits.len() > MAX_LEN {
            return Err(EncodeErr::TooManySplits);
        }
        bytes.push(self.splits.len() as u8);
        let ghost with_count = header + seq![self@.splits.len() as u8];
        let mut i: usize = 0;
        while i < self.splits.len()
            invariant
                i <= self.splits@.len(),
                self@.splits.len() <= MAX_LEN,
                forall|j: int| 0 <= j < i ==> (#[trigger] self@.splits[j]).len() <= MAX_LEN,
                bytes@ == with_count + enc_strs(self@.splits.take(i as int)),
                with_count == spec_signature() + seq![self@.version] + enc_str(self@.name) + seq![
                    self@.splits.len() as u8,
                ],
                self@.name.len() <= MAX_LEN,
            decreases self.splits@.len() - i,
        {
            let split = &self.splits[i];
            proof {
                assert(self@.splits[i as int] == split@);
            }
            if split.len() > MAX_LEN {
                proof {
                    assert(is_first_long_split(self@.splits, i as int));
                    let w = choose|w: int| is_first_long_split(self@.splits, w);
                    lemma_first_long_split_unique(self@.splits, w, i as int);
                }
                return Err(EncodeErr::SplitNameTooLong(i));
            }
            bytes.push(split.len() as u8);
            push_bytes(&mut bytes, split);
            proof {
                lemma_enc_strs_app(self@.splits.take(i as int), seq![self@.splits[i as int]]);
                assert(self@.splits.take(i + 1) =~= self@.splits.take(i as int) + seq![
                    self@.splits[i as int],
                ]);
                crate::codec::lemma_enc_strs_singleton(self@.splits[i as int]);
                assert(bytes@ =~= with_count + enc_strs(self@.splits.take(i + 1)));
            }
            i = i + 1;
        }
        proof {
            assert(self@.splits.take(self@.splits.len() as int) =~= self@.splits);
            assert(forall|w: int| !is_first_long_split(self@.splits, w));
        }

        if self.attempts.len() > MAX_LEN {
            return Err(EncodeErr::TooManyAttempts);
        }
        bytes.push(self.attempts.len() as u8);
        let ghost with_attempts_count = with_count + enc_strs(self@.splits) + seq![
            self@.attempts.len() as u8,
        ];
        proof {
            assert(bytes@ =~= with_attempts_count);
        }
        let mut i: usize = 0;
        while i < self.attempts.len()
            invariant
                i <= self.attempts@.len(),
                self@.attempts.len() == self.attempts@.len(),
                self@.attempts.len() <= MAX_LEN,
                self@.name.len() <= MAX_LEN,
                forall|j: int| 0 <= j < self@.splits.len() ==> (#[trigger] self@.splits[j]).len() <= MAX_LEN,
                forall|j: int|
                    0 <= j < i ==> (#[trigger] self@.attempts[j]).split_bits.len()
                        <= self@.splits.len(),
                bytes@ == with_attempts_count + enc_attempts(self@.attempts.take(i as int)),
                self.splits@.len() == self@.splits.len(),
                self@.splits.len() <= MAX_LEN,
            decreases self.attempts@.len() - i,
        {
            let attempt = &self.attempts[i];
            proof {
                assert(self@.attempts[i as int] == attempt@);
            }
            if attempt.split_times.len() > self.splits.len() {
                proof {
                    assert(is_first_oversized_attempt(
                        self@.attempts,
                        self@.splits.len() as int,
                        i as int,
                    ));
                    let w = choose|w: int|
                        is_first_oversized_attempt(self@.attempts, self@.splits.len() as int, w);
                    lemma_first_oversized_attempt_unique(
                        self@.attempts,
                        self@.splits.len() as int,
                        w,
                        i as int,
                    );
                }
                return Err(EncodeErr::AttemptSplitsMismatch(i));
            }
            let secs_bytes = vstd::bytes::u64_to_le_bytes(attempt.total_duration.secs);
            push_bytes(&mut bytes, &secs_bytes);
            let nanos_bytes = vstd::bytes::u32_to_le_bytes(attempt.total_duration.nanos);
            push_bytes(&mut bytes, &nanos_bytes);
            bytes.push(attempt.split_times.len() as u8);
            let ghost attempt_start = with_attempts_count + enc_attempts(
                self@.attempts.take(i as int),
            );
            let mut j: usize = 0;
            while j < attempt.split_times.len()
                invariant
                    j <= attempt.split_times@.len(),
                    attempt@.split_bits.len() <= MAX_LEN,
                    bytes@ == attempt_start + vstd::bytes::spec_u64_to_le_bytes(
                        attempt@.total_secs,
                    ) + vstd::bytes::spec_u32_to_le_bytes(attempt@.total_nanos) + seq![
                        attempt@.split_bits.len() as u8,
                    ] + enc_bits(attempt@.split_bits.take(j as int)),
                decreases attempt.split_times@.len() - j,
            {
                let time_bytes = vstd::bytes::u64_to_le_bytes(attempt.split_times[j]);
                push_bytes(&mut bytes, &time_bytes);
                proof {
                    lemma_enc_bits_app(
                        attempt@.split_bits.take(j as int),
                        seq![attempt@.split_bits[j as int]],
                    );
                    assert(attempt@.split_bits.take(j + 1) =~= attempt@.split_bits.take(j as int)
                        + seq![attempt@.split_bits[j as int]]);
                    crate::codec::lemma_enc_bits_singleton(attempt@.split_bits[j as int]);
                    assert(bytes@ =~= attempt_start + vstd::bytes::spec_u64_to_le_bytes(
                        attempt@.total_secs,
                    ) + vstd::bytes::spec_u32_to_le_bytes(attempt@.total_nanos) + seq![
                        attempt@.split_bits.len() as u8,
                    ] + enc_bits(attempt@.split_bits.take(j + 1)));
                }
                j = j + 1;
            }
            proof {
                assert(attempt@.split_bits.take(attempt@.split_bits.len() as int)
                    =~= attempt@.split_bits);
                lemma_enc_attempts_app(self@.attempts.take(i as int), seq![self@.attempts[i as int]]);
                assert(self@.attempts.take(i + 1) =~= self@.attempts.take(i as int) + seq![
                    self@.attempts[i as int],
                ]);
                crate::codec::lemma_enc_attempts_singleton(self@.attempts[i as int]);
                assert(bytes@ =~= with_attempts_count + enc_attempts(self@.attempts.take(i + 1)));
            }
            i = i + 1;
        }
        proof {
            assert(self@.attempts.take(self@.attempts.len() as int) =~= self@.attempts);
            assert(forall|w: int|
                !is_first_oversized_attempt(self@.attempts, self@.splits.len() as int, w));
            assert(bytes@ =~= spec_encode(self@));
        }
        Ok(bytes)
    }

    /// Record a finished run: the attempt's total duration is the sum of
    /// the split durations, and each recorded split time is that split's
    /// length in seconds as an IEEE-754 double (kept as its bit pattern).
    pub fn add_attempt(&mut self, split_durations: Vec<Interval>)
        requires
            forall|i: int|
                0 <= i < split_durations@.len() ==> (#[trigger] split_durations@[i]).wf(),
            interval_sum(split_durations@) <= max_interval_nanos(),
        ensures
            final(self)@.version == old(self)@.version,
            final(self)@.name == old(self)@.name,
            final(self)@.splits == old(self)@.splits,
            final(self)@.attempts == old(self)@.attempts.push(
                (AttemptModel {
                    total_secs: (interval_sum(split_durations@) / (NANOS_PER_SEC as nat)) as u64,
                    total_nanos: (interval_sum(split_durations@) % (NANOS_PER_SEC as nat)) as u32,
                    split_bits: split_durations@.map_values(
                        |d: Interval| secs_to_double_bits(d.secs, d.nanos),
                    ),
                }),
            ),
            old(self).wf() ==> final(self).wf(),
    {
        let ghost s = split_durations@;
        let mut total = Interval::zero();
        let mut bits: Vec<u64> = Vec::new();
        proof {
            assert(s.take(0) =~= Seq::<Interval>::empty());
            assert(bits@ =~= s.take(0).map_values(|d: Interval| secs_to_double_bits(d.secs, d.nanos)));
        }
        let mut i: usize = 0;
        while i < split_durations.len()
            invariant
                i <= s.len(),
                s == split_durations@,
                forall|j: int| 0 <= j < s.len() ==> (#[trigger] s[j]).wf(),
                interval_sum(s) <= max_interval_nanos(),
                total.wf(),
                total@ == interval_sum(s.take(i as int)),
                bits@ == s.take(i as int).map_values(
                    |d: Interval| secs_to_double_bits(d.secs, d.nanos),
                ),
            decreases s.len() - i,
        {
            let d = split_durations[i];
            proof {
                lemma_interval_sum_take_succ(s, i as int);
                lemma_interval_sum_take_le(s, i + 1);
            }
            total = total.add(d);
            bits.push(interval_double_bits(&d));
            proof {
                assert(s.take(i + 1) =~= s.take(i as int).push(s[i as int]));
                assert(s.take(i + 1).map_values(|d: Interval| secs_to_double_bits(d.secs, d.nanos))
                    =~= s.take(i as int).map_values(
                    |d: Interval| secs_to_double_bits(d.secs, d.nanos),
                ).push(secs_to_double_bits(d.secs, d.nanos)));
            }
            i = i + 1;
        }
        proof {
            assert(s.take(s.len() as int) =~= s);
            vstd::arithmetic::div_mod::lemma_fundamental_div_mod_converse(
                interval_sum(s) as int,
                NANOS_PER_SEC as int,
                total.secs as int,
                total.nanos as int,
            );
        }
        let attempt = AttemptData { total_duration: total, split_times: bits };
        self.attempts.push(attempt);
        proof {
            assert(final(self)@.attempts =~= old(self)@.attempts.push(attempt@));
        }
    }

    /// Parse a byte buffer as a run file, exactly as
    /// [`spec_decode`] describes: either an equivalent run value comes back,
    /// or the distinct error for the first defect found. In particular a
    /// buffer shorter than the six header bytes, one whose first four bytes
    /// are not the signature, and one with a version this codec does not
    /// know are each rejected with their own error.
    pub fn from_bytes(content: Vec<u8>) -> (r: Result<RunData, ParseErr>)
        ensures
            r is Ok ==> spec_decode(content@) == Ok::<RunModel, ParseErr>((r->Ok_0)@)
                && (r->Ok_0).wf(),
            r is Err ==> spec_decode(content@) == Err::<RunModel, ParseErr>(r->Err_0),
            content@.len() < 6 ==> r == Err::<RunData, ParseErr>(ParseErr::InvalidHeaderLength),
            content@.len() >= 6 && content@.subrange(0, 4) != spec_signature() ==> r == Err::<
                RunData,
                ParseErr,
            >(ParseErr::InvalidSignature),
            content@.len() >= 6 && content@.subrange(0, 4) == spec_signature() && content@[4]
                > FORMAT_VERSION ==> r == Err::<RunData, ParseErr>(ParseErr::UnknownVersion),
    {
        let n = content.len();
        if n < 6 {
            return Err(ParseErr::InvalidHeaderLength);
        }
        if content[0] != 98 || content[1] != 115 || content[2] != 115 || content[3] != 69 {
            proof {
                let sub = content@.subrange(0, 4);
                assert(sub[0] == content@[0] && sub[1] == content@[1] && sub[2] == content@[2]
                    && sub[3] == content@[3]);
            }
            return Err(ParseErr::InvalidSignature);
        }
        proof {
            assert(content@.subrange(0, 4) =~= spec_signature());
        }
        let version = content[4];
        if version > FORMAT_VERSION {
            return Err(ParseErr::UnknownVersion);
        }
        let name_len = content[5] as usize;
        if name_len == 0 {
            return Err(ParseErr::InvalidRunName);
        }
        if n - 6 < name_len {
            return Err(ParseErr::InvalidHeaderLength);
        }
        let name = copy_range(&content, 6, 6 + name_len);
        let name_end = 6 + name_len;
        if name_end >= n {
            return Err(ParseErr::InvalidSplitsChunk);
        }
        let splits_count = content[name_end] as usize;
        let (names, splits_end) = match parse_names(&content, name_end + 1, splits_count) {
            Err(e) => {
                return Err(e);
            },
            Ok(pair) => pair,
        };
        if splits_end >= n {
            return Err(ParseErr::InvalidAttemptsChunk);
        }
        let attempts_count = content[splits_end] as usize;
        let attempts = match parse_attempts(&content, splits_end + 1, attempts_count) {
            Err(e) => {
                return Err(e);
            },
            Ok(pair) => pair.0,
        };
        let run = RunData { version, name, splits: names, attempts };
        proof {
            assert(spec_decode(content@) == Ok::<RunModel, ParseErr>(run@));
        }
        Ok(run)
    }

    /// The split name at `index`, if the run has that many splits.
    pub fn get_split_name(&self, index: usize) -> (r: Option<&Vec<u8>>)
        ensures
            match r {
                Some(v) => index < self@.splits.len() && v@ == self@.splits[index as int],
                None => index >= self@.splits.len(),
            },
    {
        if index < self.splits.len() {
            Some(&self.splits[index])
        } else {
            None
        }
    }
}

} // verus!
