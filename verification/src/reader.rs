//! Reading a manifest line by line: at most one line of pack information,
//! which must come first, and the batches of items in their order.

use vstd::prelude::*;
use crate::error::{Error, ErrorView};
use crate::manifest::{
    item_views, parsed_item, parsed_pack, ItemTemplate, ItemView, PackTemplate, PackView,
};
use crate::number::is_digit;
use crate::sort_order::PackSortOrder;
use crate::text::{begins_with, chars_of, line_views, starts_with, trim, trimmed};

verus! {

/// What a line is taken for, by the way it starts.
pub enum LineKind {
    /// It starts with a digit: a batch of items.
    Item,
    /// It starts with one of the three keywords: pack information.
    Header,
    /// It starts with anything else.
    Malformed,
}

/// What the trimmed line `line` is taken for.
pub open spec fn line_kind(line: Seq<char>) -> LineKind {
    if line.len() > 0 && is_digit(line[0]) {
        LineKind::Item
    } else if starts_with(line, "NATURAL"@) || starts_with(line, "SHORT_TO_LONG"@) || starts_with(
        line,
        "LONG_TO_SHORT"@,
    ) {
        LineKind::Header
    } else {
        LineKind::Malformed
    }
}

/// What was read of a manifest: the pack constraints and the batches.
pub struct ManifestView {
    pub pack: PackView,
    pub items: Seq<ItemView>,
}

/// The manifest of which no line was read yet.
pub open spec fn empty_manifest() -> ManifestView {
    ManifestView {
        pack: PackView { max_pieces: 0, max_weight: 0, order: PackSortOrder::NotSet },
        items: Seq::empty(),
    }
}

/// The manifest after one more line, which is not empty and is the line
/// number `line_index`, counted from 0.
///
/// The line is trimmed and taken for what its start shows. A batch is added
/// behind the batches read before. Pack information is accepted on the first
/// line only. An error names the line as it was given, and one that comes
/// from reading a record names the trimmed line.
pub open spec fn with_line(manifest: ManifestView, line_index: int, line: Seq<char>) -> Result<
    ManifestView,
    ErrorView,
> {
    let record = trimmed(line);
    match line_kind(record) {
        LineKind::Malformed => Err(
            ErrorView::InputStringShouldStartWithNumberOrKeyWord { input: line },
        ),
        LineKind::Header => if line_index != 0 {
            Err(
                ErrorView::InputContainsDuplicatePackInformation {
                    current_line: line,
                    current_line_index: line_index,
                },
            )
        } else {
            match parsed_pack(record) {
                Ok(pack) => Ok(ManifestView { pack, ..manifest }),
                Err(error) => Err(error),
            }
        },
        LineKind::Item => match parsed_item(record) {
            Ok(item) => Ok(ManifestView { items: manifest.items.push(item), ..manifest }),
            Err(error) => Err(error),
        },
    }
}

/// The manifest that the lines `lines` give, none of which is empty. The
/// first line at fault ends the reading with its error.
pub open spec fn read_records(lines: Seq<Seq<char>>) -> Result<ManifestView, ErrorView>
    decreases lines.len(),
{
    if lines.len() == 0 {
        Ok(empty_manifest())
    } else {
        match read_records(lines.drop_last()) {
            Ok(manifest) => with_line(manifest, lines.len() - 1, lines.last()),
            Err(error) => Err(error),
        }
    }
}

/// The number of lines before the first empty line, or of all lines where
/// none is empty.
pub open spec fn record_count(lines: Seq<Seq<char>>) -> int
    decreases lines.len(),
{
    if lines.len() == 0 || lines[0].len() == 0 {
        0
    } else {
        1 + record_count(lines.drop_first())
    }
}

/// What reading a manifest from `lines` gives: the records are the lines up
/// to the first empty line or the end; what follows is not looked at.
pub open spec fn parsed_manifest(lines: Seq<Seq<char>>) -> Result<ManifestView, ErrorView> {
    read_records(lines.take(record_count(lines)))
}

/// The first `n` lines are the records exactly when none of them is empty
/// and the reading ends behind them.
pub proof fn lemma_record_count(lines: Seq<Seq<char>>, n: int)
    requires
        0 <= n <= lines.len(),
        forall|i: int| 0 <= i < n ==> (#[trigger] lines[i]).len() > 0,
        n < lines.len() ==> lines[n].len() == 0,
    ensures
        record_count(lines) == n,
    decreases n,
{
    if n > 0 {
        let rest = lines.drop_first();
        assert forall|i: int| 0 <= i < n - 1 implies (#[trigger] rest[i]).len() > 0 by {
            assert(rest[i] == lines[i + 1]);
        }
        lemma_record_count(rest, n - 1);
    }
}

/// Pack information on any line but the first is refused: where the lines
/// before it were read without fault, the manifest fails on that line, with
/// the line as it was given and the number of lines before it.
pub proof fn lemma_later_header_is_refused(lines: Seq<Seq<char>>, n: int)
    requires
        0 < n < lines.len(),
        forall|i: int| 0 <= i <= n ==> (#[trigger] lines[i]).len() > 0,
        read_records(lines.take(n)) is Ok,
        line_kind(trimmed(lines[n])) is Header,
    ensures
        parsed_manifest(lines) == Err::<ManifestView, ErrorView>(
            ErrorView::InputContainsDuplicatePackInformation {
                current_line: lines[n],
                current_line_index: n,
            },
        ),
{
    assert(lines.take(n + 1).drop_last() =~= lines.take(n));
    lemma_first_fault_ends(lines, n + 1);
}

/// A manifest that is being read, line by line.
#[derive(Debug)]
pub struct ManifestReader {
    pack_template: PackTemplate,
    item_templates: Vec<ItemTemplate>,
    line_index: usize,
}

impl ManifestReader {
    /// What was read so far.
    pub closed spec fn manifest(&self) -> ManifestView {
        ManifestView { pack: self.pack_template@, items: item_views(self.item_templates@) }
    }

    /// The number of lines that were read so far.
    pub closed spec fn lines_read(&self) -> int {
        self.line_index as int
    }

    /// A reader that has read no line yet.
    pub fn new() -> (reader: ManifestReader)
        ensures
            reader.manifest() == empty_manifest(),
            reader.lines_read() == 0,
    {
        let reader = ManifestReader {
            pack_template: PackTemplate::new(),
            item_templates: Vec::new(),
            line_index: 0,
        };
        assert(reader.manifest().items =~= Seq::<ItemView>::empty());
        reader
    }

    /// Whether one more line can be read: the count of lines has a limit.
    pub fn can_read_line(&self) -> (ready: bool)
        ensures
            ready == (self.lines_read() < usize::MAX),
    {
        self.line_index < usize::MAX
    }

    /// Reads the next line. An empty line ends the manifest: the answer is
    /// `false` and nothing changes. Any other line is read as a record and
    /// the answer is `true`. A line at fault changes nothing either.
    pub fn read_line(&mut self, line: &str) -> (more: Result<bool, Error>)
        requires
            old(self).lines_read() < usize::MAX,
        ensures
            line@.len() == 0 ==> more == Ok::<bool, Error>(false) && *final(self) == *old(self),
            line@.len() > 0 ==> match with_line(
                old(self).manifest(),
                old(self).lines_read(),
                line@,
            ) {
                Ok(manifest) => more == Ok::<bool, Error>(true) && final(self).manifest()
                    == manifest && final(self).lines_read() == old(self).lines_read() + 1,
                Err(view) => more matches Err(error) && error@ == view && *final(self) == *old(
                    self,
                ),
            },
    {
        if line.is_empty() {
            return Ok(false);
        }
        let trimmed_line = trim(line);
        let record = chars_of(trimmed_line);
        let is_number: bool = record.len() > 0 && '0' <= record[0] && record[0] <= '9';
        let is_keyword: bool = begins_with(&record, "NATURAL") || begins_with(
            &record,
            "SHORT_TO_LONG",
        ) || begins_with(&record, "LONG_TO_SHORT");
        if is_number {
            match ItemTemplate::from_str(trimmed_line) {
                Ok(item) => {
                    let ghost before = item_views(self.item_templates@);
                    self.item_templates.push(item);
                    assert(item_views(self.item_templates@) =~= before.push(item@));
                },
                Err(error) => {
                    return Err(error);
                },
            }
        } else if is_keyword {
            if self.line_index != 0 {
                return Err(
                    Error::InputContainsDuplicatePackInformation {
                        current_line: line.to_owned(),
                        current_line_index: self.line_index,
                    },
                );
            }
            match self.pack_template.from_line(trimmed_line) {
                Ok(()) => {},
                Err(error) => {
                    return Err(error);
                },
            }
        } else {
            return Err(Error::InputStringShouldStartWithNumberOrKeyWord { input: line.to_owned() });
        }
        self.line_index = self.line_index + 1;
        Ok(true)
    }

    /// The pack constraints and the batches that were read.
    pub fn finish(self) -> (manifest: (PackTemplate, Vec<ItemTemplate>))
        ensures
            manifest.0@ == self.manifest().pack,
            item_views(manifest.1@) == self.manifest().items,
    {
        (self.pack_template, self.item_templates)
    }
}

/// Reads a manifest from its lines. The reading ends at the first empty line
/// or at the end of the lines. Without a line of pack information the
/// constraints stay as `PackTemplate::new` gives them.
pub fn parse_input(lines: &Vec<String>) -> (manifest: Result<
    (PackTemplate, Vec<ItemTemplate>),
    Error,
>)
    ensures
        match parsed_manifest(line_views(lines@)) {
            Ok(view) => manifest matches Ok(read) && read.0@ == view.pack && item_views(read.1@)
                == view.items,
            Err(view) => manifest matches Err(error) && error@ == view,
        },
{
    let ghost texts = line_views(lines@);
    let mut reader = ManifestReader::new();
    let mut index: usize = 0;
    while index < lines.len()
        invariant
            index <= lines.len(),
            texts == line_views(lines@),
            forall|i: int| 0 <= i < index ==> (#[trigger] texts[i]).len() > 0,
            read_records(texts.take(index as int)) == Ok::<ManifestView, ErrorView>(
                reader.manifest(),
            ),
            reader.lines_read() == index,
        decreases lines.len() - index,
    {
        let ghost upto = texts.take(index as int + 1);
        assert(upto.drop_last() =~= texts.take(index as int));
        match reader.read_line(lines[index].as_str()) {
            Ok(more) => {
                if !more {
                    proof {
                        lemma_record_count(texts, index as int);
                    }
                    return Ok(reader.finish());
                }
            },
            Err(error) => {
                proof {
                    lemma_first_fault_ends(texts, index as int + 1);
                }
                return Err(error);
            },
        }
        index = index + 1;
    }
    proof {
        lemma_record_count(texts, index as int);
    }
    Ok(reader.finish())
}

/// A line at fault among the first `n` lines, none of which is empty, is the
/// error of the whole manifest.
proof fn lemma_first_fault_ends(lines: Seq<Seq<char>>, n: int)
    requires
        0 <= n <= lines.len(),
        forall|i: int| 0 <= i < n ==> (#[trigger] lines[i]).len() > 0,
        read_records(lines.take(n)) is Err,
    ensures
        parsed_manifest(lines) == read_records(lines.take(n)),
    decreases lines.len() - n,
{
    if n < lines.len() && lines[n].len() > 0 {
        assert(lines.take(n + 1).drop_last() =~= lines.take(n));
        lemma_first_fault_ends(lines, n + 1);
    } else {
        lemma_record_count(lines, n);
    }
}

} // verus!
