use vstd::prelude::*;
use crate::record::{checksum_matches, parse_record, ParseSfvRecordError, RecordView, SfvRecord};
use crate::text::{chars_of, is_space, is_space_char};

verus! {

/// Declares `std::io::Error` so that a load can report it; its contents are
/// never inspected.
#[verifier::external_type_specification]
#[verifier::external_body]
pub struct ExIoError(std::io::Error);

/// Why a manifest could not be loaded.
#[derive(Debug)]
pub enum Error {
    /// The manifest could not be opened or read.
    IO(std::io::Error),
    /// A data line of the manifest is malformed.
    Format(ParseSfvRecordError),
}

impl From<std::io::Error> for Error {
    fn from(error: std::io::Error) -> (r: Error)
        ensures
            r == Error::IO(error),
    {
        Error::IO(error)
    }
}

impl vstd::std_specs::convert::FromSpecImpl<std::io::Error> for Error {
    open spec fn obeys_from_spec() -> bool {
        true
    }

    open spec fn from_spec(v: std::io::Error) -> Error {
        Error::IO(v)
    }
}

impl From<ParseSfvRecordError> for Error {
    fn from(error: ParseSfvRecordError) -> (r: Error)
        ensures
            r == Error::Format(error),
    {
        Error::Format(error)
    }
}

impl vstd::std_specs::convert::FromSpecImpl<ParseSfvRecordError> for Error {
    open spec fn obeys_from_spec() -> bool {
        true
    }

    open spec fn from_spec(v: ParseSfvRecordError) -> Error {
        Error::Format(v)
    }
}

/// A comment line: its first non-space character is `;`.
pub open spec fn is_comment(line: Seq<char>) -> bool
    decreases line.len(),
{
    if line.len() == 0 {
        false
    } else if line[0] == ';' {
        true
    } else if is_space(line[0]) {
        is_comment(line.drop_first())
    } else {
        false
    }
}

/// The records of a manifest's lines, comments skipped, in order; or the
/// error of the first malformed data line.
pub open spec fn load_records(lines: Seq<Seq<char>>) -> Result<
    Seq<RecordView>,
    ParseSfvRecordError,
>
    decreases lines.len(),
{
    if lines.len() == 0 {
        Ok(Seq::empty())
    } else {
        match load_records(lines.drop_last()) {
            Err(e) => Err(e),
            Ok(rs) => if is_comment(lines.last()) {
                Ok(rs)
            } else {
                match parse_record(lines.last()) {
                    Err(e) => Err(e),
                    Ok(r) => Ok(rs.push(r)),
                }
            },
        }
    }
}

pub open spec fn lines_view(lines: Seq<String>) -> Seq<Seq<char>> {
    lines.map_values(|l: String| l@)
}

/// Once a line fails, later lines do not change the outcome.
proof fn lemma_load_error_persists(lines: Seq<Seq<char>>, i: int, e: ParseSfvRecordError)
    requires
        0 <= i <= lines.len(),
        load_records(lines.take(i)) == Err::<Seq<RecordView>, ParseSfvRecordError>(e),
    ensures
        load_records(lines) == Err::<Seq<RecordView>, ParseSfvRecordError>(e),
    decreases lines.len() - i,
{
    if i < lines.len() {
        assert(lines.take(i + 1).drop_last() =~= lines.take(i));
        lemma_load_error_persists(lines, i + 1, e);
    } else {
        assert(lines.take(i) =~= lines);
    }
}

/// Whether `line` is a comment line.
pub fn is_comment_line(line: &str) -> (r: bool)
    ensures
        r == is_comment(line@),
{
    let chars = chars_of(line);
    let mut i: usize = 0;
    assert(chars@.skip(0) =~= chars@);
    while i < chars.len() && is_space_char(chars[i])
        invariant
            i <= chars.len(),
            chars@ == line@,
            is_comment(line@) == is_comment(chars@.skip(i as int)),
        decreases chars.len() - i,
    {
        assert(chars@[i as int] != ';');
        assert(chars@.skip(i as int).drop_first() =~= chars@.skip(i + 1));
        i = i + 1;
    }
    i < chars.len() && chars[i] == ';'
}

/// A loaded manifest: its records in file order.
pub struct Validator {
    records: Vec<SfvRecord>,
}

impl View for Validator {
    type V = Seq<RecordView>;

    closed spec fn view(&self) -> Seq<RecordView> {
        self.records@.map_values(|r: SfvRecord| r@)
    }
}

impl Validator {
    /// Loads a manifest from its lines: comment lines are skipped and every
    /// other line must parse as a record; the first line that does not
    /// aborts the load with its error.
    pub fn from_lines(lines: &Vec<String>) -> (r: Result<Validator, Error>)
        ensures
            match r {
                Ok(v) => load_records(lines_view(lines@)) == Ok::<
                    Seq<RecordView>,
                    ParseSfvRecordError,
                >(v@),
                Err(Error::Format(e)) => load_records(lines_view(lines@)) == Err::<
                    Seq<RecordView>,
                    ParseSfvRecordError,
                >(e),
                Err(Error::IO(_)) => false,
            },
    {
        let ghost ls = lines_view(lines@);
        let mut records: Vec<SfvRecord> = Vec::new();
        let mut i: usize = 0;
        assert(ls.take(0) =~= Seq::<Seq<char>>::empty());
        assert(records@.map_values(|r: SfvRecord| r@) =~= Seq::<RecordView>::empty());
        while i < lines.len()
            invariant
                i <= lines.len(),
                ls == lines_view(lines@),
                load_records(ls.take(i as int)) == Ok::<Seq<RecordView>, ParseSfvRecordError>(
                    records@.map_values(|r: SfvRecord| r@),
                ),
            decreases lines.len() - i,
        {
            let line = lines[i].as_str();
            assert(ls.take(i + 1).drop_last() =~= ls.take(i as int));
            assert(ls.take(i + 1).last() == line@);
            if !is_comment_line(line) {
                match SfvRecord::parse(line) {
                    Err(e) => {
                        proof {
                            lemma_load_error_persists(ls, i + 1, e);
                        }
                        return Err(Error::Format(e));
                    },
                    Ok(record) => {
                        let ghost before = records@;
                        records.push(record);
                        assert(records@.map_values(|r: SfvRecord| r@) =~= before.map_values(
                            |r: SfvRecord| r@,
                        ).push(record@));
                    },
                }
            }
            i = i + 1;
        }
        assert(ls.take(i as int) =~= ls);
        Ok(Validator { records })
    }

    /// The records, in file order.
    pub fn records(&self) -> (r: &[SfvRecord])
        ensures
            r@.map_values(|x: SfvRecord| x@) == self@,
    {
        self.records.as_slice()
    }

    /// Whether every record passes its check. `found[i]` is what reading the
    /// file of record `i` gave: `None` when it could not be opened or read.
    pub fn validate(&self, found: &Vec<Option<u32>>) -> (r: bool)
        requires
            found.len() == self@.len(),
        ensures
            r == forall|i: int| 0 <= i < self@.len() ==> checksum_matches(self@[i], found@[i]),
    {
        let mut i: usize = 0;
        while i < self.records.len()
            invariant
                i <= self.records.len(),
                found.len() == self@.len(),
                forall|j: int| 0 <= j < i ==> checksum_matches(self@[j], found@[j]),
            decreases self.records.len() - i,
        {
            if !self.records[i].validate(found[i]) {
                return false;
            }
            i = i + 1;
        }
        true
    }
}

} // verus!
