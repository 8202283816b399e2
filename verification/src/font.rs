use vstd::prelude::*;
use vstd::slice::slice_subrange;
use crate::decode::StaticSize;
use crate::cmap::{
    glyph_in_table, subtable_for, table_glyph, table_variation, variation_in_table, chosen,
    CmapSubtable, Purpose,
};
use crate::error::{FontParseError, NotFound};
use crate::primitive::{be16, be32, lemma_u32_at, u32_at, Offset32, Primitive, Tag};

verus! {

/// The flavour of a font, told by the first four bytes of its data.
#[derive(Debug, Clone, Copy, PartialEq, Eq, Structural)]
pub enum FontVersion {
    /// The data starts with the tag `OTTO`.
    OpenType,
    /// The data starts with the number 0x00010000.
    TrueType,
}

/// The flavour that the first four bytes of `bytes` announce, if any.
pub open spec fn version_of(bytes: Seq<u8>) -> Option<FontVersion> {
    if bytes.len() < 4 {
        None
    } else if be32(bytes) == 0x4F54_544F {
        Some(FontVersion::OpenType)
    } else if be32(bytes) == 0x0001_0000 {
        Some(FontVersion::TrueType)
    } else {
        None
    }
}

impl FontVersion {
    /// Reads the flavour from the front of `buf` and returns it with the rest
    /// of the buffer. Fails on fewer than four bytes and on any other leading
    /// value.
    pub fn parse(buf: &[u8]) -> (r: Result<(FontVersion, &[u8]), FontParseError>)
        ensures
            match version_of(buf@) {
                Some(v) => r is Ok && r->Ok_0.0 == v && r->Ok_0.1@ == buf@.skip(4),
                None => r == Err::<(FontVersion, &[u8]), _>(FontParseError::UnexpectedEof),
            },
    {
        let (ver, rest) = match u32::parse(buf) {
            Ok(p) => p,
            Err(e) => {
                return Err(e);
            },
        };
        if ver == 0x4F54_544F {
            Ok((FontVersion::OpenType, rest))
        } else if ver == 0x0001_0000 {
            Ok((FontVersion::TrueType, rest))
        } else {
            Err(FontParseError::UnexpectedEof)
        }
    }
}

/// The number of tables that the header in `window` announces.
pub open spec fn table_count(window: Seq<u8>) -> int {
    be16(window.skip(4))
}

/// The table directory inside `window`: the records that follow the header.
/// `None` where the window is too short for the header or for the records it
/// announces, or where it does not start with a known flavour.
pub open spec fn directory_of(window: Seq<u8>) -> Option<Seq<u8>> {
    if window.len() < 12 || version_of(window) is None || window.len() - 12 < 16 * table_count(
        window,
    ) {
        None
    } else {
        Some(window.subrange(12, 12 + 16 * table_count(window)))
    }
}

/// The `i`-th record of a directory.
pub open spec fn record(dir: Seq<u8>, i: int) -> Seq<u8> {
    dir.subrange(16 * i, 16 * i + 16)
}

/// The tag that a directory record names.
pub open spec fn record_tag(rec: Seq<u8>) -> Seq<u8> {
    rec.subrange(0, 4)
}

/// The offset that a directory record gives, counted from the start of the
/// font's data.
pub open spec fn record_offset(rec: Seq<u8>) -> int {
    u32_at(rec, 8)
}

/// One record of the table directory: the table's tag, the checksum of its
/// data, where it starts and how long it is.
#[derive(Debug, Clone, Copy)]
pub struct TableDirectoryEntry {
    pub tag: Tag,
    pub checksum: u32,
    pub offset: Offset32,
    pub length: u32,
}

/// Whether `entry` is what the sixteen bytes at the front of `rec` encode.
pub open spec fn encodes_entry(rec: Seq<u8>, entry: TableDirectoryEntry) -> bool {
    &&& entry.tag.0@ == record_tag(rec)
    &&& entry.checksum as int == u32_at(rec, 4)
    &&& entry.offset.0 as int == record_offset(rec)
    &&& entry.length as int == u32_at(rec, 12)
}

impl TableDirectoryEntry {
    /// Decodes the record at the front of `buf` and returns it with the rest
    /// of the buffer. Fails exactly when the buffer is shorter than a record.
    pub fn parse(buf: &[u8]) -> (r: Result<(TableDirectoryEntry, &[u8]), FontParseError>)
        ensures
            buf@.len() < 16 ==> r is Err && r->Err_0 == FontParseError::UnexpectedEof,
            buf@.len() >= 16 ==> r is Ok && encodes_entry(buf@, r->Ok_0.0) && r->Ok_0.1@
                == buf@.skip(16),
    {
        if buf.len() < 16 {
            return Err(FontParseError::UnexpectedEof);
        }
        let (tag, rest) = match Tag::parse(buf) {
            Ok(p) => p,
            Err(e) => {
                return Err(e);
            },
        };
        let (checksum, rest) = match u32::parse(rest) {
            Ok(p) => p,
            Err(e) => {
                return Err(e);
            },
        };
        proof {
            lemma_u32_at(buf@, buf@.skip(4), 4);
            lemma_u32_at(buf@, rest@, 8);
        }
        let (offset, rest) = match Offset32::parse(rest) {
            Ok(p) => p,
            Err(e) => {
                return Err(e);
            },
        };
        proof {
            lemma_u32_at(buf@, rest@, 12);
        }
        let (length, rest) = match u32::parse(rest) {
            Ok(p) => p,
            Err(e) => {
                return Err(e);
            },
        };
        proof {
            assert(rest@ =~= buf@.skip(16));
        }
        Ok((TableDirectoryEntry { tag, checksum, offset, length }, rest))
    }
}

impl StaticSize for TableDirectoryEntry {
    const SIZE: usize = 16;
}

/// Whether a record is whole and its offset lies inside `buffer`.
pub open spec fn record_valid(buffer: Seq<u8>, rec: Seq<u8>) -> bool {
    rec.len() >= 16 && record_offset(rec) <= buffer.len()
}

/// Whether `table` is the table that the record `rec` locates in `buffer`.
pub open spec fn describes(buffer: Seq<u8>, rec: Seq<u8>, table: FontTable) -> bool {
    &&& table.tag.0@ == record_tag(rec)
    &&& table.offset as int == record_offset(rec)
    &&& table.data@ == buffer.skip(record_offset(rec))
}

/// Whether `outcome` is what reading the record `rec` against `buffer` gives:
/// the located table, or the failure where the offset lies past the end.
pub open spec fn reads_as(
    buffer: Seq<u8>,
    rec: Seq<u8>,
    outcome: Result<FontTable, FontParseError>,
) -> bool {
    if record_valid(buffer, rec) {
        outcome is Ok && describes(buffer, rec, outcome->Ok_0)
    } else {
        outcome == Err::<FontTable, _>(FontParseError::UnexpectedEof)
    }
}

/// Whether record `i` of `dir` carries `tag` and has its offset inside `buffer`.
pub open spec fn hit(buffer: Seq<u8>, dir: Seq<u8>, tag: Seq<u8>, i: int) -> bool {
    &&& 0 <= i < dir.len() / 16
    &&& record_tag(record(dir, i)) == tag
    &&& record_valid(buffer, record(dir, i))
}

/// Whether record `i` is the first hit for `tag`.
pub open spec fn first_hit(buffer: Seq<u8>, dir: Seq<u8>, tag: Seq<u8>, i: int) -> bool {
    &&& hit(buffer, dir, tag, i)
    &&& forall|j: int| 0 <= j < i ==> !hit(buffer, dir, tag, j)
}

/// Whether `list` is what the records of `dir` read as, one entry for each
/// record and in the directory's order.
pub open spec fn lists(
    buffer: Seq<u8>,
    dir: Seq<u8>,
    list: Seq<Result<FontTable, FontParseError>>,
) -> bool {
    &&& list.len() == dir.len() / 16
    &&& forall|i: int|
        0 <= i < list.len() ==> reads_as(buffer, record(dir, i), #[trigger] list[i])
}

/// Whether `found` is the answer to a lookup of `tag`: the table of the first
/// hit, or nothing where no record is a hit.
pub open spec fn found_by_tag(
    buffer: Seq<u8>,
    dir: Seq<u8>,
    tag: Seq<u8>,
    found: Option<FontTable>,
) -> bool {
    match found {
        Some(t) => exists|i: int|
            #[trigger] first_hit(buffer, dir, tag, i) && describes(buffer, record(dir, i), t),
        None => forall|i: int| !#[trigger] hit(buffer, dir, tag, i),
    }
}

/// The data of the table that a lookup of `tag` finds: the font's data from
/// the offset of the first hit on. None where no record is a hit.
pub open spec fn table_data(buffer: Seq<u8>, dir: Seq<u8>, tag: Seq<u8>) -> Option<Seq<u8>> {
    if exists|i: int| hit(buffer, dir, tag, i) {
        let i = choose|i: int| first_hit(buffer, dir, tag, i);
        Some(buffer.skip(record_offset(record(dir, i))))
    } else {
        None
    }
}

/// The tag of the character map table.
pub open spec fn cmap_tag() -> Seq<u8> {
    seq![99u8, 109u8, 97u8, 112u8]
}

/// The glyph of `cp` in a font: what its character map table gives, and the
/// missing glyph where the font has no such table.
pub open spec fn font_glyph(buffer: Seq<u8>, dir: Seq<u8>, cp: int) -> int {
    match table_data(buffer, dir, cmap_tag()) {
        Some(t) => table_glyph(t, cp),
        None => 0,
    }
}

/// The glyph of `base` followed by `selector` in a font, where the font
/// registers the sequence.
pub open spec fn font_variation(buffer: Seq<u8>, dir: Seq<u8>, base: int, selector: int) -> Option<
    int,
> {
    match table_data(buffer, dir, cmap_tag()) {
        Some(t) => table_variation(t, base, selector),
        None => None,
    }
}

/// The answer to a lookup holds the data that the first hit locates.
pub proof fn lemma_found_data(buffer: Seq<u8>, dir: Seq<u8>, tag: Seq<u8>, found: Option<FontTable>)
    requires
        found_by_tag(buffer, dir, tag, found),
    ensures
        match table_data(buffer, dir, tag) {
            Some(d) => found is Some && found->Some_0.data@ == d,
            None => found is None,
        },
{
    match found {
        Some(t) => {
            let i = choose|i: int|
                #[trigger] first_hit(buffer, dir, tag, i) && describes(buffer, record(dir, i), t);
            assert(hit(buffer, dir, tag, i));
            let k = choose|k: int| first_hit(buffer, dir, tag, k);
            assert(first_hit(buffer, dir, tag, k));
            if k < i {
                assert(!hit(buffer, dir, tag, k));
            }
            if i < k {
                assert(!hit(buffer, dir, tag, i));
            }
        },
        None => {},
    }
}

/// Whether two readings of a record agree: both fail, or both locate a table
/// with the same tag, offset and data.
pub open spec fn same_outcome(
    a: Result<FontTable, FontParseError>,
    b: Result<FontTable, FontParseError>,
) -> bool {
    match (a, b) {
        (Ok(s), Ok(t)) => s.tag.0@ == t.tag.0@ && s.offset == t.offset && s.data@ == t.data@,
        (Err(e), Err(f)) => e == f,
        _ => false,
    }
}

/// A window of fewer than twelve bytes holds no table directory, so that
/// parsing it as a font fails.
pub proof fn lemma_short_window_has_no_directory(window: Seq<u8>)
    requires
        window.len() < 12,
    ensures
        directory_of(window) is None,
{
}

/// The directory of a parsed window has one record of sixteen bytes for each
/// table that the header announces.
pub proof fn lemma_directory_has_announced_records(window: Seq<u8>)
    requires
        directory_of(window) is Some,
    ensures
        directory_of(window)->Some_0.len() == 16 * table_count(window),
        directory_of(window)->Some_0.len() / 16 == table_count(window),
{
}

/// Listing the tables of one font twice gives the same sequence: as many
/// entries as the directory has records, and entry by entry the same outcome.
pub proof fn lemma_listing_restarts(
    buffer: Seq<u8>,
    dir: Seq<u8>,
    first: Seq<Result<FontTable, FontParseError>>,
    second: Seq<Result<FontTable, FontParseError>>,
)
    requires
        lists(buffer, dir, first),
        lists(buffer, dir, second),
    ensures
        first.len() == dir.len() / 16,
        second.len() == first.len(),
        forall|i: int| 0 <= i < first.len() ==> same_outcome(#[trigger] first[i], second[i]),
{
    assert forall|i: int| 0 <= i < first.len() implies same_outcome(
        #[trigger] first[i],
        second[i],
    ) by {
        assert(reads_as(buffer, record(dir, i), first[i]));
        assert(reads_as(buffer, record(dir, i), second[i]));
    }
}

/// A listing fails at exactly the records whose offset lies past the end of
/// the font's data: at such a record it holds the failure, and at every other
/// record, the ones before it too, it holds the table.
pub proof fn lemma_listing_fails_at_bad_record(
    buffer: Seq<u8>,
    dir: Seq<u8>,
    list: Seq<Result<FontTable, FontParseError>>,
    i: int,
)
    requires
        lists(buffer, dir, list),
        dir.len() % 16 == 0,
        0 <= i < list.len(),
    ensures
        record_offset(record(dir, i)) > buffer.len() <==> list[i] == Err::<FontTable, _>(
            FontParseError::UnexpectedEof,
        ),
        record_offset(record(dir, i)) <= buffer.len() <==> list[i] is Ok,
{
    assert(reads_as(buffer, record(dir, i), list[i]));
    assert(record(dir, i).len() == 16);
}

/// In a directory whose record `i` has its offset inside the font's data and
/// a tag that no earlier record carries, a lookup of that tag finds the table
/// of record `i`, at the offset that the record encodes.
pub proof fn lemma_lookup_finds_record(
    buffer: Seq<u8>,
    dir: Seq<u8>,
    i: int,
    found: Option<FontTable>,
)
    requires
        0 <= i < dir.len() / 16,
        record_offset(record(dir, i)) <= buffer.len(),
        forall|j: int|
            0 <= j < i ==> record_tag(#[trigger] record(dir, j)) != record_tag(record(dir, i)),
        found_by_tag(buffer, dir, record_tag(record(dir, i)), found),
    ensures
        found is Some,
        describes(buffer, record(dir, i), found->Some_0),
        found->Some_0.offset as int == record_offset(record(dir, i)),
{
    let tag = record_tag(record(dir, i));
    assert(record(dir, i).len() == 16);
    assert(hit(buffer, dir, tag, i));
    let k = choose|k: int|
        #[trigger] first_hit(buffer, dir, tag, k) && describes(
            buffer,
            record(dir, k),
            found->Some_0,
        );
    if k < i {
        assert(record_tag(record(dir, k)) != tag);
    }
}

/// A table of a font: its tag and where its data starts.
#[derive(Debug, Clone, Copy)]
pub struct FontTable<'buf> {
    /// The table's name.
    pub tag: Tag,
    /// Where the table starts, counted from the start of the font's data.
    pub offset: usize,
    /// The font's data from the table's start to the end of the buffer.
    pub data: &'buf [u8],
}

impl<'buf> FontTable<'buf> {
    /// Reads the directory record at the front of `window` and locates its
    /// table in `buffer`. Fails where the window holds less than a record and
    /// where the record's offset lies past the end of `buffer`.
    pub fn parse(buffer: &'buf [u8], window: &'buf [u8]) -> (r: Result<Self, FontParseError>)
        ensures
            reads_as(buffer@, window@, r),
    {
        let (entry, _) = match TableDirectoryEntry::parse(window) {
            Ok(p) => p,
            Err(e) => {
                return Err(e);
            },
        };
        let offset = entry.offset.as_usize();
        if offset > buffer.len() {
            return Err(FontParseError::UnexpectedEof);
        }
        let data = slice_subrange(buffer, offset, buffer.len());
        Ok(FontTable { tag: entry.tag, offset, data })
    }
}

impl<'buf> StaticSize for FontTable<'buf> {
    const SIZE: usize = 16;
}

/// A font: the whole of its data and, inside it, the table directory.
pub struct Font<'buf> {
    buffer: &'buf [u8],
    version: FontVersion,
    tables: &'buf [u8],
}

impl<'buf> Font<'buf> {
    /// The directory holds whole records only, and no more than a header can
    /// announce.
    #[verifier::type_invariant]
    pub closed spec fn wf(&self) -> bool {
        self.tables@.len() % 16 == 0 && self.tables@.len() <= 16 * 0xFFFF
    }

    /// The whole of the font's data.
    pub closed spec fn spec_buffer(&self) -> Seq<u8> {
        self.buffer@
    }

    /// The records of the table directory.
    pub closed spec fn spec_directory(&self) -> Seq<u8> {
        self.tables@
    }

    /// The font's flavour.
    pub closed spec fn spec_version(&self) -> FontVersion {
        self.version
    }

    /// The number of records in the table directory.
    pub open spec fn spec_num_tables(&self) -> int {
        self.spec_directory().len() as int / 16
    }

    /// Reads the header of the font inside `window` and keeps the table
    /// directory that follows it. `buffer` is the data that the directory's
    /// offsets count from. No record is looked at yet.
    pub fn parse(buffer: &'buf [u8], window: &'buf [u8]) -> (r: Result<Font<'buf>, FontParseError>)
        ensures
            match directory_of(window@) {
                Some(dir) => r is Ok && r->Ok_0.spec_buffer() == buffer@
                    && r->Ok_0.spec_directory() == dir && Some(r->Ok_0.spec_version())
                    == version_of(window@) && r->Ok_0.spec_num_tables() == table_count(window@),
                None => r is Err && r->Err_0 == FontParseError::UnexpectedEof,
            },
    {
        if window.len() < 12 {
            return Err(FontParseError::UnexpectedEof);
        }
        let (version, rest) = match FontVersion::parse(window) {
            Ok(p) => p,
            Err(e) => {
                return Err(e);
            },
        };
        let (num_tables, rest) = match u16::parse(rest) {
            Ok(p) => p,
            Err(e) => {
                return Err(e);
            },
        };
        // The three search fields are not used: tables are found by a scan.
        let rest = slice_subrange(rest, 6, rest.len());
        let size: usize = num_tables as usize * 16;
        if rest.len() < size {
            return Err(FontParseError::UnexpectedEof);
        }
        let tables = slice_subrange(rest, 0, size);
        proof {
            assert(tables@ =~= window@.subrange(12, 12 + 16 * table_count(window@)));
        }
        Ok(Font { buffer, version, tables })
    }

    /// The font's flavour.
    pub fn version(&self) -> (v: FontVersion)
        ensures
            v == self.spec_version(),
    {
        self.version
    }

    /// The number of tables in the directory.
    pub fn num_tables(&self) -> (n: usize)
        ensures
            n as int == self.spec_num_tables(),
    {
        self.tables.len() / 16
    }

    /// A walk over the tables, from the first record of the directory. Each
    /// call starts afresh.
    pub fn table_iter(&self) -> (it: FontTableIter<'buf>)
        ensures
            it.source() == self.spec_buffer(),
            it.remaining() == self.spec_directory(),
    {
        proof {
            use_type_invariant(self);
        }
        FontTableIter { buffer: self.buffer, cursor: self.tables }
    }

    /// What each record of the directory reads as, in the directory's order:
    /// the table it locates, or the failure where its offset lies past the
    /// end of the font's data.
    pub fn tables(&self) -> (list: Vec<Result<FontTable<'buf>, FontParseError>>)
        ensures
            lists(self.spec_buffer(), self.spec_directory(), list@),
    {
        proof {
            use_type_invariant(self);
        }
        let n: usize = self.tables.len() / 16;
        let mut list: Vec<Result<FontTable<'buf>, FontParseError>> = Vec::new();
        let mut i: usize = 0;
        while i < n
            invariant
                16 * n == self.tables@.len(),
                self.tables@.len() <= 16 * 0xFFFF,
                0 <= i <= n,
                list@.len() == i,
                forall|k: int|
                    0 <= k < i ==> reads_as(
                        self.buffer@,
                        record(self.tables@, k),
                        #[trigger] list@[k],
                    ),
            decreases n - i,
        {
            let rec = slice_subrange(self.tables, 16 * i, 16 * i + 16);
            list.push(FontTable::parse(self.buffer, rec));
            i = i + 1;
        }
        list
    }

    /// The data of the character map table, where the font has one.
    pub fn cmap_table(&self) -> (t: Option<&'buf [u8]>)
        ensures
            match table_data(self.spec_buffer(), self.spec_directory(), cmap_tag()) {
                Some(d) => t is Some && t->Some_0@ == d,
                None => t is None,
            },
    {
        let tag = Tag([99, 109, 97, 112]);
        assert(tag.0@ =~= cmap_tag());
        let found = self.table(tag);
        proof {
            lemma_found_data(self.spec_buffer(), self.spec_directory(), cmap_tag(), found);
        }
        match found {
            Some(t) => Some(t.data),
            None => None,
        }
    }

    /// The subtable that glyphs are looked up in: the preferred one of the
    /// character map table, read and checked. None where the font has no
    /// such table, no subtable serves, or the subtable does not pass.
    pub fn cmap_subtable(&self) -> (r: Option<CmapSubtable<'buf>>)
        ensures
            match table_data(self.spec_buffer(), self.spec_directory(), cmap_tag()) {
                Some(t) => match chosen(t, Purpose::Glyphs) {
                    Some(p) => r is Some && r->Some_0.window() == p.0 && r->Some_0.spec_kind()
                        == p.1,
                    None => r is None,
                },
                None => r is None,
            },
    {
        match self.cmap_table() {
            Some(t) => subtable_for(t, Purpose::Glyphs),
            None => None,
        }
    }

    /// The glyph of the code point `cp`, without regard to variation
    /// sequences. Where the font has no glyph for it, this is the missing
    /// glyph, of index 0.
    pub fn glyph_index(&self, cp: u32) -> (g: u16)
        ensures
            g as int == font_glyph(self.spec_buffer(), self.spec_directory(), cp as int),
    {
        match self.cmap_table() {
            Some(t) => glyph_in_table(t, cp),
            None => 0,
        }
    }

    /// The glyph of the code point `base` followed by the variation selector
    /// `selector`. Fails where the font does not register the sequence; the
    /// caller then looks up the base alone.
    pub fn unicode_variation_sequence(&self, base: u32, selector: u32) -> (r: Result<
        u16,
        NotFound,
    >)
        ensures
            match font_variation(
                self.spec_buffer(),
                self.spec_directory(),
                base as int,
                selector as int,
            ) {
                Some(g) => r is Ok && r->Ok_0 as int == g,
                None => r is Err,
            },
    {
        match self.cmap_table() {
            Some(t) => variation_in_table(t, base, selector),
            None => Err(NotFound),
        }
    }

    /// The table named `tag`: the one that the first record with this tag and
    /// with an offset inside the font's data locates. `None` where the
    /// directory has no such record.
    pub fn table(&self, tag: Tag) -> (found: Option<FontTable<'buf>>)
        ensures
            found_by_tag(self.spec_buffer(), self.spec_directory(), tag.0@, found),
    {
        proof {
            use_type_invariant(self);
        }
        let n: usize = self.tables.len() / 16;
        let mut i: usize = 0;
        while i < n
            invariant
                16 * n == self.tables@.len(),
                self.tables@.len() <= 16 * 0xFFFF,
                0 <= i <= n,
                forall|k: int| 0 <= k < i ==> !hit(self.buffer@, self.tables@, tag.0@, k),
            decreases n - i,
        {
            let rec = slice_subrange(self.tables, 16 * i, 16 * i + 16);
            match FontTable::parse(self.buffer, rec) {
                Ok(t) => {
                    if t.tag.same(&tag) {
                        assert(first_hit(self.spec_buffer(), self.spec_directory(), tag.0@, i as int));
                        assert(describes(self.spec_buffer(), record(self.spec_directory(), i as int), t));
                        return Some(t);
                    }
                },
                Err(_) => {},
            }
            i = i + 1;
        }
        None
    }
}

/// A walk over the tables of a font, record by record.
pub struct FontTableIter<'buf> {
    buffer: &'buf [u8],
    cursor: &'buf [u8],
}

impl<'buf> FontTableIter<'buf> {
    /// What is left of the directory is made of whole records.
    #[verifier::type_invariant]
    pub closed spec fn wf(&self) -> bool {
        self.cursor@.len() % 16 == 0
    }

    /// The font's data, which the records' offsets count from.
    pub closed spec fn source(&self) -> Seq<u8> {
        self.buffer@
    }

    /// The records that the walk has not reached yet.
    pub closed spec fn remaining(&self) -> Seq<u8> {
        self.cursor@
    }

    /// Reads the next record and steps past it, whatever it reads as. `None`
    /// once the directory is used up.
    pub fn next(&mut self) -> (r: Option<Result<FontTable<'buf>, FontParseError>>)
        ensures
            final(self).source() == old(self).source(),
            old(self).remaining().len() == 0 ==> r is None && final(self).remaining() == old(
                self,
            ).remaining(),
            old(self).remaining().len() > 0 ==> r is Some && reads_as(
                old(self).source(),
                record(old(self).remaining(), 0),
                r->Some_0,
            ) && final(self).remaining() == old(self).remaining().skip(16),
    {
        proof {
            use_type_invariant(&*self);
        }
        if self.cursor.len() == 0 {
            return None;
        }
        let rec = slice_subrange(self.cursor, 0, 16);
        let table = FontTable::parse(self.buffer, rec);
        self.cursor = slice_subrange(self.cursor, 16, self.cursor.len());
        Some(table)
    }
}

} // verus!
