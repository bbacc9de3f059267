use vstd::prelude::*;
use vstd::string::StringExecFns;
use crate::crc32::Crc32Digest;
use crate::record::{record_line, RecordView, SfvRecord};

verus! {

/// The comment line that opens every manifest this library writes.
pub open spec fn manifest_header() -> Seq<char> {
    ";created using rust-sfv\n"@
}

/// The lines of `rs`, in order.
pub open spec fn records_text(rs: Seq<RecordView>) -> Seq<char>
    decreases rs.len(),
{
    if rs.len() == 0 {
        Seq::empty()
    } else {
        records_text(rs.drop_last()) + record_line(rs.last())
    }
}

/// A whole manifest: the header comment, then one line per record.
pub open spec fn manifest_text(rs: Seq<RecordView>) -> Seq<char> {
    manifest_header() + records_text(rs)
}

/// A manifest being built: records in the order their paths were added.
#[derive(Debug)]
pub struct SfvCreator {
    records: Vec<SfvRecord>,
}

impl View for SfvCreator {
    type V = Seq<RecordView>;

    closed spec fn view(&self) -> Seq<RecordView> {
        self.records@.map_values(|r: SfvRecord| r@)
    }
}

impl SfvCreator {
    /// A creator with no records.
    pub fn new() -> (r: SfvCreator)
        ensures
            r@ == Seq::<RecordView>::empty(),
    {
        let r = SfvCreator { records: Vec::new() };
        assert(r@ =~= Seq::<RecordView>::empty());
        r
    }

    /// Adds the file at `path`, whose whole contents were fed to `digest`.
    pub fn add_path(&mut self, path: String, digest: Crc32Digest)
        ensures
            final(self)@ == old(self)@.push(RecordView { path: path@, checksum: digest@ }),
    {
        let record = SfvRecord::new(path, digest.value());
        self.records.push(record);
        assert(final(self)@ =~= old(self)@.push(RecordView { path: path@, checksum: digest@ }));
    }

    /// Appends the manifest to `out`: the header, then each record's line in
    /// the order the records were added.
    pub fn write(&self, out: &mut String)
        ensures
            final(out)@ == old(out)@ + manifest_text(self@),
    {
        out.append(";created using rust-sfv\n");
        let mut i: usize = 0;
        while i < self.records.len()
            invariant
                i <= self.records.len(),
                out@ == old(out)@ + manifest_header() + records_text(self@.take(i as int)),
            decreases self.records.len() - i,
        {
            self.records[i].write(out);
            i = i + 1;
            assert(self@.take(i as int).drop_last() =~= self@.take(i - 1));
            assert(out@ =~= old(out)@ + manifest_header() + records_text(self@.take(i as int)));
        }
        assert(self@.take(i as int) =~= self@);
        assert(out@ =~= old(out)@ + manifest_text(self@));
    }
}

impl Default for SfvCreator {
    fn default() -> (r: SfvCreator)
        ensures
            r@ == Seq::<RecordView>::empty(),
    {
        SfvCreator::new()
    }
}

} // verus!
