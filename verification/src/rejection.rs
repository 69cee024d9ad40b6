//! Rejected records: what one is, how the artifact renders it, and how the
//! artifact stays in source-line order.
use crate::json::{
    alike, copy_json, copy_object, entry_trees, entry_value, into_object, json_number,
    json_object, json_text, json_tree, keys_differ, lemma_key_found,
    lemma_object_of_different_keys, lemma_object_shows_its_entries,
    lemma_whole_numbers_stay, nests_within, number_of, number_tree, object_entries, object_get,
    object_of, object_value, optional_text, parse_json, parsed_json, parses_to, reads_back,
    render_json, rendered_json, shows, whole_number, whole_numbers_only, with_field, JsonTree,
};
use crate::lines::{all_written, LineWrite, LineWriter};
use crate::text::{decimal, join_path, joined_path, law_decimal_is_injective, text_view};
use serde_json::Value;
use vstd::prelude::*;
use vstd::std_specs::iter::IteratorSpec;

verus! {

/// The artifact's file name inside the artifact directory of a load.
pub const REJECTED_RECORDS_FILENAME: &'static str = "rejected-records.jsonl";

/// A CSV record that does not parse as a record of the header's fields.
pub const MALFORMED_CSV_RECORD: &'static str = "malformed_csv_record";

/// A JSONL line that is not a JSON object.
pub const MALFORMED_JSONL_RECORD: &'static str = "malformed_jsonl_record";

/// A value whose type does not widen to its pinned field type.
pub const TYPE_COERCION_FAILED: &'static str = "type_coercion_failed";

/// A null or absent value in a pinned field that must have one.
pub const MISSING_REQUIRED_FIELD: &'static str = "missing_required_field";

/// A null or absent value in a merge key field.
pub const NULL_MERGE_KEY: &'static str = "null_merge_key";

/// One rejected record: its source line, why it was rejected, the dataset
/// field at fault where one is known, the source's name for it where that
/// differs, and what could be recovered of the record.
#[derive(Debug)]
pub struct RejectedRecord {
    pub line: u64,
    pub code: &'static str,
    pub field: Option<String>,
    pub source_field: Option<String>,
    pub message: String,
    pub record: Value,
}

/// A rejected record as the values it holds.
pub struct RejectedView {
    pub line: u64,
    pub code: Seq<char>,
    pub field: Option<Seq<char>>,
    pub source_field: Option<Seq<char>>,
    pub message: Seq<char>,
    pub record: JsonTree,
}

impl View for RejectedRecord {
    type V = RejectedView;

    open spec fn view(&self) -> RejectedView {
        RejectedView {
            line: self.line,
            code: self.code@,
            field: text_view(self.field),
            source_field: text_view(self.source_field),
            message: self.message@,
            record: json_tree(self.record),
        }
    }
}

/// A record rejected before any field of it could be named.
pub open spec fn parse_rejection(
    line: u64,
    code: Seq<char>,
    message: Seq<char>,
    record: JsonTree,
) -> RejectedView {
    RejectedView { line, code, field: None, source_field: None, message, record }
}

/// The artifact object of a rejected record.
pub open spec fn rejection_tree(rejected: RejectedView) -> JsonTree {
    object_of(rejection_entries(rejected))
}

/// A name, or JSON null where there is none.
pub open spec fn named_or_null(name: Option<Seq<char>>) -> JsonTree {
    match name {
        Some(name) => JsonTree::Text(name),
        None => JsonTree::Null,
    }
}

/// Whether a record can be read back inside an entry: it leaves the parser one
/// level of nesting.
pub open spec fn readable_record(record: JsonTree) -> bool {
    nests_within(record, 126)
}

/// The entries of the artifact object of a rejected record.
pub open spec fn rejection_entries(rejected: RejectedView) -> Seq<(Seq<char>, JsonTree)> {
    seq![
        ("line"@, number_tree(rejected.line as nat)),
        ("code"@, JsonTree::Text(rejected.code)),
        ("field"@, named_or_null(rejected.field)),
        ("source_field"@, named_or_null(rejected.source_field)),
        ("message"@, JsonTree::Text(rejected.message)),
        ("record"@, rejected.record),
    ]
}

proof fn lemma_rejection_tree(rejected: RejectedView)
    ensures
        rejection_tree(rejected) == JsonTree::Object(rejection_entries(rejected)),
        entry_value(rejection_entries(rejected), "line"@) == Some(
            number_tree(rejected.line as nat),
        ),
        readable_record(rejected.record) ==> nests_within(rejection_tree(rejected), 127),
        whole_numbers_only(rejected.record) ==> whole_numbers_only(rejection_tree(rejected)),
{
    let entries = rejection_entries(rejected);
    reveal_strlit("line");
    reveal_strlit("code");
    reveal_strlit("field");
    reveal_strlit("source_field");
    reveal_strlit("message");
    reveal_strlit("record");
    assert("line"@[0] == 'l' && "code"@[0] == 'c');
    assert("line"@.len() == 4 && "code"@.len() == 4 && "field"@.len() == 5 && "source_field"@.len()
        == 12 && "message"@.len() == 7 && "record"@.len() == 6);
    assert forall|i: int, j: int| 0 <= i < j < entries.len() implies (#[trigger] entries[i]).0 != (
    #[trigger] entries[j]).0 by {
        if i == 0 && j == 1 {
            assert(entries[i].0[0] != entries[j].0[0]);
        } else {
            assert(entries[i].0.len() != entries[j].0.len());
        }
    }
    lemma_object_of_different_keys(entries);
    lemma_key_found(entries, 0);
    assert(whole_number(decimal(rejected.line as nat)));
    if whole_numbers_only(rejected.record) {
        assert forall|i: int| 0 <= i < entries.len() implies whole_numbers_only(
            (#[trigger] entries[i]).1,
        ) by {
            if i != 5 && i != 0 {
                assert(entries[i].1 is Text || entries[i].1 is Null);
            }
        }
    }
    if readable_record(rejected.record) {
        assert forall|i: int| 0 <= i < entries.len() implies nests_within(
            (#[trigger] entries[i]).1,
            126,
        ) by {
            if i != 5 {
                assert(entries[i].1 is Text || entries[i].1 is Null || entries[i].1 is Number);
            }
        }
    }
}

/// An entry that reads back names the line it was written with.
proof fn lemma_line_reads_back(entries: Seq<(Seq<char>, JsonTree)>, text: Seq<char>, line: u64)
    requires
        entries.len() > 0,
        entries[0] == ("line"@, number_tree(line as nat)),
        reads_back(text, JsonTree::Object(entries)),
    ensures
        names_line(text, line),
{
    let read = parsed_json(text)->Ok_0->Object_0;
    assert(whole_number(decimal(line as nat)));
    assert(entries[0].0 == read[0].0 && alike(entries[0].1, read[0].1));
    assert(read[0].1 == number_tree(line as nat));
}

/// Renders a rejected record as its artifact line, without a line end. Where
/// the record can be read back, the line names the source line and reads back as
/// the rejection, but for numbers of the record that are no integers.
pub fn artifact_line(rejected: &RejectedRecord) -> (text: String)
    ensures
        text@ == rendered_json(rejection_tree(rejected@)),
        readable_record(rejected@.record) ==> names_line(text@, rejected.line) && reads_back(
            text@,
            rejection_tree(rejected@),
        ),
        readable_record(rejected@.record) && whole_numbers_only(rejected@.record) ==> parses_to(
            text@,
            rejection_tree(rejected@),
        ),
{
    proof {
        lemma_rejection_tree(rejected@);
    }
    let fields = with_field(Vec::new(), "line", json_number(rejected.line));
    let fields = with_field(fields, "code", json_text(rejected.code.to_owned()));
    let fields = with_field(fields, "field", optional_text(&rejected.field));
    let fields = with_field(fields, "source_field", optional_text(&rejected.source_field));
    let fields = with_field(fields, "message", json_text(rejected.message.clone()));
    let fields = with_field(fields, "record", copy_json(&rejected.record));
    proof {
        assert(entry_trees(fields@) =~= seq![
            ("line"@, number_tree(rejected@.line as nat)),
            ("code"@, JsonTree::Text(rejected@.code)),
            ("field"@, named_or_null(rejected@.field)),
            ("source_field"@, named_or_null(rejected@.source_field)),
            ("message"@, JsonTree::Text(rejected@.message)),
            ("record"@, rejected@.record),
        ]);
    }
    let text = render_json(&json_object(fields));
    proof {
        if readable_record(rejected@.record) {
            lemma_line_reads_back(rejection_entries(rejected@), text@, rejected.line);
            if whole_numbers_only(rejected@.record) {
                lemma_whole_numbers_stay(rejection_tree(rejected@), parsed_json(text@)->Ok_0);
            }
        }
    }
    text
}

/// The entry that a spilled record is written as.
pub open spec fn spill_tree(line: u64, record: Seq<(Seq<char>, JsonTree)>) -> JsonTree {
    object_of(
        seq![("line"@, number_tree(line as nat)), ("record"@, JsonTree::Object(record))],
    )
}

proof fn lemma_spill_tree(line: u64, record: Seq<(Seq<char>, JsonTree)>)
    ensures
        ({
            let entries = seq![
                ("line"@, number_tree(line as nat)),
                ("record"@, JsonTree::Object(record)),
            ];
            &&& spill_tree(line, record) == JsonTree::Object(entries)
            &&& entry_value(entries, "line"@) == Some(number_tree(line as nat))
            &&& entry_value(entries, "record"@) == Some(JsonTree::Object(record))
        }),
        readable_record(JsonTree::Object(record)) ==> nests_within(spill_tree(line, record), 127),
        whole_numbers_only(JsonTree::Object(record)) ==> whole_numbers_only(
            spill_tree(line, record),
        ),
{
    let entries = seq![("line"@, number_tree(line as nat)), ("record"@, JsonTree::Object(record))];
    reveal_strlit("line");
    reveal_strlit("record");
    assert("line"@.len() == 4 && "record"@.len() == 6);
    assert(entries[0].0 != entries[1].0);
    lemma_object_of_different_keys(entries);
    lemma_key_found(entries, 0);
    lemma_key_found(entries, 1);
    assert(whole_number(decimal(line as nat)));
    if whole_numbers_only(JsonTree::Object(record)) {
        assert forall|i: int| 0 <= i < entries.len() implies whole_numbers_only(
            (#[trigger] entries[i]).1,
        ) by {
            if i != 1 {
                assert(entries[i].1 is Number);
            }
        }
    }
    if readable_record(JsonTree::Object(record)) {
        assert forall|i: int| 0 <= i < entries.len() implies nests_within(
            (#[trigger] entries[i]).1,
            126,
        ) by {
            if i != 1 {
                assert(entries[i].1 is Number);
            }
        }
    }
}

/// Writes a record that waits for the verdict as a line of the spill. Where the
/// record can be read back, it does with its source line, but for numbers that
/// are no integers.
fn spill_line(line: u64, object: &serde_json::Map<String, Value>) -> (text: String)
    ensures
        text@ == rendered_json(spill_tree(line, object_entries(*object))),
        spill_reads_back(text@, line, object_entries(*object)),
{
    proof {
        lemma_spill_tree(line, object_entries(*object));
    }
    let fields = with_field(Vec::new(), "line", json_number(line));
    let fields = with_field(fields, "record", object_value(copy_object(object)));
    proof {
        assert(entry_trees(fields@) =~= seq![
            ("line"@, number_tree(line as nat)),
            ("record"@, JsonTree::Object(object_entries(*object))),
        ]);
    }
    let text = render_json(&json_object(fields));
    proof {
        let record = object_entries(*object);
        if readable_record(JsonTree::Object(record)) {
            let entries = seq![
                ("line"@, number_tree(line as nat)),
                ("record"@, JsonTree::Object(record)),
            ];
            let tree = parsed_json(text@)->Ok_0;
            let read = tree->Object_0;
            lemma_line_reads_back(entries, text@, line);
            assert(entries[1].0 == read[1].0 && alike(entries[1].1, read[1].1));
            let held = read[1].1->Object_0;
            reveal_strlit("line");
            reveal_strlit("record");
            assert(entries[0].0 == read[0].0);
            assert("line"@.len() == 4 && "record"@.len() == 6);
            lemma_key_found(read, 1);
            assert(spilled_as(text@, line, held));
            if whole_numbers_only(JsonTree::Object(record)) {
                lemma_whole_numbers_stay(JsonTree::Object(record), read[1].1);
            }
        }
    }
    text
}

/// Whether a spill line of a record reads back where the record can: with its
/// source line and a record alike, and with the same record where its numbers
/// are all integers.
pub open spec fn spill_reads_back(
    text: Seq<char>,
    line: u64,
    record: Seq<(Seq<char>, JsonTree)>,
) -> bool {
    let tree = JsonTree::Object(record);
    &&& readable_record(tree) ==> exists|read: Seq<(Seq<char>, JsonTree)>| #[trigger]
        spilled_as(text, line, read) && alike(tree, JsonTree::Object(read))
    &&& readable_record(tree) && whole_numbers_only(tree) ==> spilled_as(text, line, record)
}

/// The rejections of one load: their lines, in artifact order, and the first
/// failure of writing the artifact. A failure ends the writing, never the
/// load; it surfaces before any report is written.
pub struct RejectionSink<E> {
    artifact_path: String,
    spill_path: String,
    merged_path: String,
    lines: Vec<u64>,
    io_error: Option<E>,
}

/// A rejection sink as its mathematical state.
pub struct SinkView<E> {
    pub artifact_path: Seq<char>,
    pub spill_path: Seq<char>,
    pub merged_path: Seq<char>,
    pub lines: Seq<u64>,
    pub io_error: Option<E>,
}

impl<E> View for RejectionSink<E> {
    type V = SinkView<E>;

    closed spec fn view(&self) -> SinkView<E> {
        SinkView {
            artifact_path: self.artifact_path@,
            spill_path: self.spill_path@,
            merged_path: self.merged_path@,
            lines: self.lines@,
            io_error: self.io_error,
        }
    }
}

impl<E> SinkView<E> {
    /// The sink after a failure; the first one is kept.
    pub open spec fn absorbing(self, error: E) -> SinkView<E> {
        SinkView {
            io_error: match self.io_error {
                Some(first) => Some(first),
                None => Some(error),
            },
            ..self
        }
    }
}

impl<E> RejectionSink<E> {
    /// The sink of a load whose artifacts go into a directory.
    pub fn new(artifact_dir: &str) -> (sink: RejectionSink<E>)
        ensures
            sink@ == (SinkView::<E> {
                artifact_path: joined_path(artifact_dir@, REJECTED_RECORDS_FILENAME@),
                spill_path: joined_path(artifact_dir@, ".rejected-records.spill"@),
                merged_path: joined_path(artifact_dir@, ".rejected-records.merged"@),
                lines: seq![],
                io_error: None,
            }),
    {
        RejectionSink {
            artifact_path: join_path(artifact_dir, REJECTED_RECORDS_FILENAME),
            spill_path: join_path(artifact_dir, ".rejected-records.spill"),
            merged_path: join_path(artifact_dir, ".rejected-records.merged"),
            lines: Vec::new(),
            io_error: None,
        }
    }

    /// The artifact's path.
    pub fn artifact_path(&self) -> (path: &str)
        ensures
            path@ == self@.artifact_path,
    {
        self.artifact_path.as_str()
    }

    /// The path of the spill.
    pub fn spill_path(&self) -> (path: &str)
        ensures
            path@ == self@.spill_path,
    {
        self.spill_path.as_str()
    }

    /// The path under which a merged artifact is built.
    pub fn merged_path(&self) -> (path: &str)
        ensures
            path@ == self@.merged_path,
    {
        self.merged_path.as_str()
    }

    /// Counts a rejection, and hands out the line to append to the artifact
    /// unless writing it failed before.
    pub fn record(&mut self, rejected: &RejectedRecord) -> (line: Option<String>)
        ensures
            final(self)@ == (SinkView { lines: old(self)@.lines.push(rejected.line), ..old(self)@ }),
            match line {
                Some(text) => {
                    &&& old(self)@.io_error is None
                    &&& text@ == rendered_json(rejection_tree(rejected@))
                    &&& readable_record(rejected@.record) ==> names_line(text@, rejected.line)
                },
                None => old(self)@.io_error is Some,
            },
    {
        self.lines.push(rejected.line);
        if self.io_error.is_some() {
            None
        } else {
            Some(artifact_line(rejected))
        }
    }

    /// Notes a failure of writing the artifact.
    pub fn absorb(&mut self, error: E)
        ensures
            final(self)@ == old(self)@.absorbing(error),
    {
        if self.io_error.is_none() {
            self.io_error = Some(error);
        }
    }

    /// How many records were rejected.
    pub fn count(&self) -> (count: u64)
        ensures
            count == self@.lines.len(),
    {
        self.lines.len() as u64
    }

    /// The lines of the rejected records, in artifact order.
    pub fn rejected_lines(&self) -> (lines: &Vec<u64>)
        ensures
            lines@ == self@.lines,
    {
        &self.lines
    }

    /// An empty spill.
    pub fn spill(&self) -> (spill: ValidationSpill<E>)
        ensures
            spill.entries == 0,
            spill.io_error is None,
    {
        ValidationSpill { entries: 0, io_error: None }
    }

    /// Whether a finished spill is to be merged into the artifact: not after
    /// any failure, and not when it is empty. A failure of the spill is
    /// absorbed.
    pub fn begin_merge(&mut self, spill: ValidationSpill<E>) -> (merges: bool)
        ensures
            final(self)@ == match spill.io_error {
                Some(error) => old(self)@.absorbing(error),
                None => old(self)@,
            },
            merges == (final(self)@.io_error is None && spill.entries > 0),
    {
        let spilled: u64 = spill.entries;
        if let Some(error) = spill.io_error {
            self.absorb(error);
        }
        self.io_error.is_none() && spilled > 0
    }

    /// Takes the outcome of a merge: the lines of the merged artifact, or the
    /// failure that left the artifact as it was.
    pub fn finish_merge(&mut self, merged: Result<Vec<u64>, E>)
        ensures
            final(self)@ == match merged {
                Ok(lines) => SinkView { lines: lines@, ..old(self)@ },
                Err(error) => old(self)@.absorbing(error),
            },
    {
        match merged {
            Ok(lines) => {
                self.lines = lines;
            },
            Err(error) => {
                self.absorb(error);
            },
        }
    }

    /// Drops a spill without merging it: the artifact keeps what was recorded
    /// so far, and a failure of the spill is absorbed.
    pub fn discard(&mut self, spill: ValidationSpill<E>)
        ensures
            final(self)@ == match spill.io_error {
                Some(error) => old(self)@.absorbing(error),
                None => old(self)@,
            },
    {
        if let Some(error) = spill.io_error {
            self.absorb(error);
        }
    }

    /// Hands out the first failure.
    pub fn take_io_error(&mut self) -> (error: Option<E>)
        ensures
            error == old(self)@.io_error,
            final(self)@ == (SinkView { io_error: None, ..old(self)@ }),
    {
        self.io_error.take()
    }
}

/// Records whose rejection waits for the verdict at the end of the input:
/// they are merged into the artifact, or dropped, with that verdict.
pub struct ValidationSpill<E> {
    pub entries: u64,
    pub io_error: Option<E>,
}

impl<E> ValidationSpill<E> {
    /// Counts a spilled record, and hands out the line to write unless writing
    /// failed before.
    pub fn record(&mut self, line: u64, object: &serde_json::Map<String, Value>) -> (text: Option<
        String,
    >)
        requires
            old(self).entries < u64::MAX,
        ensures
            final(self).entries == old(self).entries + 1,
            final(self).io_error == old(self).io_error,
            match text {
                Some(text) => {
                    &&& old(self).io_error is None
                    &&& text@ == rendered_json(spill_tree(line, object_entries(*object)))
                    &&& spill_reads_back(text@, line, object_entries(*object))
                },
                None => old(self).io_error is Some,
            },
    {
        self.entries = self.entries + 1;
        if self.io_error.is_some() {
            None
        } else {
            Some(spill_line(line, object))
        }
    }

    /// Notes a failure of writing the spill; the first one is kept.
    pub fn absorb(&mut self, error: E)
        ensures
            final(self).entries == old(self).entries,
            final(self).io_error == match old(self).io_error {
                Some(first) => Some(first),
                None => Some(error),
            },
    {
        if self.io_error.is_none() {
            self.io_error = Some(error);
        }
    }
}

/// Why a merge could not go on: reading failed, or a line is not one that the
/// artifact or the spill holds.
#[derive(Debug)]
pub enum MergeError<E> {
    Io(E),
    InvalidArtifactLine,
    InvalidSpillLine,
}

/// The text of an invalid line's error.
pub open spec fn invalid_line_text<E>(error: MergeError<E>) -> Option<Seq<char>> {
    match error {
        MergeError::Io(_) => None,
        MergeError::InvalidArtifactLine => Some(
            "rejected-records artifact line without a line number"@,
        ),
        MergeError::InvalidSpillLine => Some(
            "rejected-records spill line without a line number and record"@,
        ),
    }
}

impl<E> MergeError<E> {
    /// What is wrong with an invalid line.
    pub fn invalid_line(&self) -> (text: Option<&'static str>)
        ensures
            match text {
                Some(text) => invalid_line_text(*self) == Some(text@),
                None => invalid_line_text(*self) is None,
            },
    {
        match self {
            MergeError::Io(_) => None,
            MergeError::InvalidArtifactLine => Some(
                "rejected-records artifact line without a line number",
            ),
            MergeError::InvalidSpillLine => Some(
                "rejected-records spill line without a line number and record",
            ),
        }
    }
}

/// Whether an artifact line names this source line.
pub open spec fn names_line(text: Seq<char>, line: u64) -> bool {
    parsed_json(text) matches Ok(JsonTree::Object(entries)) && entry_value(entries, "line"@)
        == Some(number_tree(line as nat))
}

/// Whether an artifact line names a source line.
pub open spec fn names_some_line(text: Seq<char>) -> bool {
    exists|line: u64| names_line(text, line)
}

/// Whether a spill line holds this source line and record.
pub open spec fn spilled_as(text: Seq<char>, line: u64, record: Seq<(Seq<char>, JsonTree)>) -> bool {
    parsed_json(text) matches Ok(JsonTree::Object(entries)) && entry_value(entries, "line"@)
        == Some(number_tree(line as nat)) && entry_value(entries, "record"@) == Some(
        JsonTree::Object(record),
    )
}

/// The source line that an entry names.
pub fn entry_line(object: &serde_json::Map<String, Value>) -> (line: Option<u64>)
    ensures
        match line {
            Some(line) => entry_value(object_entries(*object), "line"@) == Some(
                number_tree(line as nat),
            ),
            None => forall|n: u64|
                entry_value(object_entries(*object), "line"@) != Some(
                    #[trigger] number_tree(n as nat),
                ),
        },
{
    match object_get(object, "line") {
        Some(value) => number_of(value),
        None => None,
    }
}

fn parsed_object(text: &str) -> (object: Option<serde_json::Map<String, Value>>)
    ensures
        match object {
            Some(object) => parses_to(text@, JsonTree::Object(object_entries(object))),
            None => !(parsed_json(text@) matches Ok(JsonTree::Object(_))),
        },
{
    match parse_json(text) {
        Ok(value) => into_object(value),
        Err(_) => None,
    }
}

/// The source line that an artifact line names.
pub fn artifact_line_number(text: &str) -> (line: Option<u64>)
    ensures
        match line {
            Some(named) => names_line(text@, named),
            None => forall|n: u64| !#[trigger] names_line(text@, n),
        },
        line is Some <==> names_some_line(text@),
{
    let line = match parsed_object(text) {
        Some(object) => entry_line(&object),
        None => None,
    };
    proof {
        if names_some_line(text@) {
            let named = choose|named: u64| names_line(text@, named);
            assert(names_line(text@, named));
            assert(line is Some);
        }
        if let Some(named) = line {
            assert(names_line(text@, named));
        }
    }
    line
}

/// Whether an entry holds this source line and record.
pub open spec fn holds_record(
    entries: Seq<(Seq<char>, JsonTree)>,
    line: u64,
    record: Seq<(Seq<char>, JsonTree)>,
) -> bool {
    entry_value(entries, "line"@) == Some(number_tree(line as nat)) && entry_value(
        entries,
        "record"@,
    ) == Some(JsonTree::Object(record))
}

/// Whether an entry holds a source line and a record.
pub open spec fn holds_some_record(entries: Seq<(Seq<char>, JsonTree)>) -> bool {
    exists|line: u64, record: Seq<(Seq<char>, JsonTree)>| holds_record(entries, line, record)
}

/// The source line and the record that an entry holds.
pub fn entry_record(object: &serde_json::Map<String, Value>) -> (held: Option<
    (u64, serde_json::Map<String, Value>),
>)
    ensures
        match held {
            Some((line, record)) => holds_record(
                object_entries(*object),
                line,
                object_entries(record),
            ),
            None => forall|named: u64, kept: Seq<(Seq<char>, JsonTree)>|
                !#[trigger] holds_record(object_entries(*object), named, kept),
        },
        held is Some <==> holds_some_record(object_entries(*object)),
{
    let held = match entry_line(object) {
        Some(line) => match object_get(object, "record") {
            Some(value) => match into_object(copy_json(value)) {
                Some(record) => Some((line, record)),
                None => None,
            },
            None => None,
        },
        None => None,
    };
    proof {
        let entries = object_entries(*object);
        if holds_some_record(entries) {
            let (line, record) = choose|line: u64, record: Seq<(Seq<char>, JsonTree)>|
                holds_record(entries, line, record);
            assert(holds_record(entries, line, record));
            assert(held is Some);
        }
        if let Some((line, ref record)) = held {
            assert(holds_record(entries, line, object_entries(*record)));
        }
    }
    held
}

/// Whether a spill line holds a source line and a record.
pub open spec fn spills_some_record(text: Seq<char>) -> bool {
    exists|line: u64, record: Seq<(Seq<char>, JsonTree)>| spilled_as(text, line, record)
}

/// What a line of the spill holds: the source line and the record.
pub fn spill_entry(text: &str) -> (entry: Option<(u64, serde_json::Map<String, Value>)>)
    ensures
        match entry {
            Some((line, record)) => spilled_as(text@, line, object_entries(record)),
            None => forall|named: u64, kept: Seq<(Seq<char>, JsonTree)>|
                !#[trigger] spilled_as(text@, named, kept),
        },
        entry is Some <==> spills_some_record(text@),
{
    let entry = match parsed_object(text) {
        Some(object) => {
            let held = entry_record(&object);
            proof {
                assert forall|line: u64, record: Seq<(Seq<char>, JsonTree)>| #[trigger]
                    spilled_as(text@, line, record) <==> holds_record(
                        object_entries(object),
                        line,
                        record,
                    ) by {}
            }
            held
        },
        None => None,
    };
    proof {
        if spills_some_record(text@) {
            let (line, record) = choose|line: u64, record: Seq<(Seq<char>, JsonTree)>|
                spilled_as(text@, line, record);
            assert(spilled_as(text@, line, record));
            assert(entry is Some);
        }
        if let Some((line, ref record)) = entry {
            assert(spilled_as(text@, line, object_entries(*record)));
        }
    }
    entry
}

/// No line names two source lines.
pub proof fn law_line_number_is_unique(text: Seq<char>, a: u64, b: u64)
    requires
        names_line(text, a),
        names_line(text, b),
    ensures
        a == b,
{
    law_decimal_is_injective(a as nat, b as nat);
}

/// What reading the next artifact line gives: its source line and text, or
/// nothing at the end; the first bad line or read failure ends the merge.
pub open spec fn artifact_pull<E>(
    lines: Seq<Result<String, E>>,
    pulled: Result<Option<(u64, String)>, MergeError<E>>,
) -> bool {
    if lines.len() == 0 {
        pulled matches Ok(None)
    } else {
        match lines[0] {
            Err(error) => pulled matches Err(MergeError::Io(raised)) && raised == error,
            Ok(text) => match pulled {
                Ok(Some((line, kept))) => kept == text && names_line(text@, line),
                Ok(None) => false,
                Err(error) => error is InvalidArtifactLine && forall|line: u64|
                    !#[trigger] names_line(text@, line),
            },
        }
    }
}

/// Reads the next artifact line.
pub fn next_artifact_line<E, I: Iterator<Item = Result<String, E>>>(lines: &mut I) -> (pulled:
    Result<Option<(u64, String)>, MergeError<E>>)
    requires
        <I as IteratorSpec>::obeys_prophetic_iter_laws(old(lines)),
        <I as IteratorSpec>::decrease(old(lines)) is Some,
    ensures
        artifact_pull(<I as IteratorSpec>::remaining(old(lines)), pulled),
        pulled matches Ok(Some(_)) ==> <I as IteratorSpec>::remaining(final(lines))
            == <I as IteratorSpec>::remaining(old(lines)).drop_first(),
        pulled matches Ok(Some(_)) ==> <I as IteratorSpec>::decrease(final(lines))->0
            < <I as IteratorSpec>::decrease(old(lines))->0,
        pulled matches Ok(None) ==> <I as IteratorSpec>::remaining(final(lines))
            == <I as IteratorSpec>::remaining(old(lines)),
        <I as IteratorSpec>::obeys_prophetic_iter_laws(final(lines)),
        <I as IteratorSpec>::decrease(final(lines)) is Some,
{
    match lines.next() {
        None => Ok(None),
        Some(Err(error)) => Err(MergeError::Io(error)),
        Some(Ok(text)) => match artifact_line_number(text.as_str()) {
            Some(line) => Ok(Some((line, text))),
            None => Err(MergeError::InvalidArtifactLine),
        },
    }
}

/// Whether rendering the record of a spill line may give this.
pub open spec fn may_render<F: Fn(u64, serde_json::Map<String, Value>) -> Option<RejectedRecord>>(
    render: F,
    text: Seq<char>,
    rendered: Option<RejectedRecord>,
) -> bool {
    exists|line: u64, record: serde_json::Map<String, Value>|
        {
            &&& spilled_as(text, line, object_entries(record))
            &&& #[trigger] render.ensures((line, record), rendered)
        }
}

/// What reading the next spilled rejection gives, after passing over
/// `dropped` lines whose records no longer violate anything.
pub open spec fn spill_pull<
    E,
    F: Fn(u64, serde_json::Map<String, Value>) -> Option<RejectedRecord>,
>(
    render: F,
    lines: Seq<Result<String, E>>,
    dropped: int,
    pulled: Result<Option<RejectedRecord>, MergeError<E>>,
) -> bool {
    &&& 0 <= dropped <= lines.len()
    &&& forall|i: int|
        0 <= i < dropped ==> #[trigger] lines[i] is Ok && may_render(render, lines[i]->Ok_0@, None)
    &&& if dropped == lines.len() {
        pulled matches Ok(None)
    } else {
        match lines[dropped] {
            Err(error) => pulled matches Err(MergeError::Io(raised)) && raised == error,
            Ok(text) => match pulled {
                Ok(rejection) => rejection is Some && may_render(render, text@, rejection),
                Err(error) => error is InvalidSpillLine && forall|
                    line: u64,
                    record: Seq<(Seq<char>, JsonTree)>,
                | !#[trigger] spilled_as(text@, line, record),
            },
        }
    }
}

/// Reads spilled records until one renders as a rejection.
pub fn next_spill_rejection<
    E,
    I: Iterator<Item = Result<String, E>>,
    F: Fn(u64, serde_json::Map<String, Value>) -> Option<RejectedRecord>,
>(lines: &mut I, render: &F) -> (pulled: Result<Option<RejectedRecord>, MergeError<E>>)
    requires
        <I as IteratorSpec>::obeys_prophetic_iter_laws(old(lines)),
        <I as IteratorSpec>::decrease(old(lines)) is Some,
        forall|line: u64, record: serde_json::Map<String, Value>| #[trigger]
            render.requires((line, record)),
    ensures
        exists|dropped: int|
            {
                &&& #[trigger] spill_pull(
                    *render,
                    <I as IteratorSpec>::remaining(old(lines)),
                    dropped,
                    pulled,
                )
                &&& pulled matches Ok(Some(_)) ==> <I as IteratorSpec>::remaining(final(lines))
                    == <I as IteratorSpec>::remaining(old(lines)).skip(dropped + 1)
            },
        pulled matches Ok(Some(_)) ==> <I as IteratorSpec>::decrease(final(lines))->0
            < <I as IteratorSpec>::decrease(old(lines))->0,
        <I as IteratorSpec>::obeys_prophetic_iter_laws(final(lines)),
        <I as IteratorSpec>::decrease(final(lines)) is Some,
{
    let ghost all = <I as IteratorSpec>::remaining(lines);
    let ghost mut dropped: int = 0;
    proof {
        assert(all.skip(0) =~= all);
    }
    loop
        invariant
            <I as IteratorSpec>::obeys_prophetic_iter_laws(lines),
            <I as IteratorSpec>::decrease(lines) is Some,
            forall|line: u64, record: serde_json::Map<String, Value>| #[trigger]
                render.requires((line, record)),
            all == <I as IteratorSpec>::remaining(old(lines)),
            0 <= dropped <= all.len(),
            dropped > 0 ==> <I as IteratorSpec>::decrease(lines)->0 < <I as IteratorSpec>::decrease(
                old(lines),
            )->0,
            dropped == 0 ==> *lines == *old(lines),
            <I as IteratorSpec>::remaining(lines) == all.skip(dropped),
            forall|i: int|
                0 <= i < dropped ==> #[trigger] all[i] is Ok && may_render(
                    *render,
                    all[i]->Ok_0@,
                    None,
                ),
        decreases <I as IteratorSpec>::decrease(lines)->0,
    {
        match lines.next() {
            None => {
                let pulled = Ok(None);
                proof {
                    assert(spill_pull(*render, all, dropped, pulled));
                }
                return pulled;
            },
            Some(Err(error)) => {
                let pulled = Err(MergeError::Io(error));
                proof {
                    assert(all[dropped] == Err::<String, E>(error));
                    assert(spill_pull(*render, all, dropped, pulled));
                }
                return pulled;
            },
            Some(Ok(text)) => {
                proof {
                    assert(all[dropped] == Ok::<String, E>(text));
                    assert(all.skip(dropped).drop_first() =~= all.skip(dropped + 1));
                }
                match spill_entry(text.as_str()) {
                    None => {
                        let pulled = Err(MergeError::InvalidSpillLine);
                        proof {
                            assert(spill_pull(*render, all, dropped, pulled));
                        }
                        return pulled;
                    },
                    Some((line, record)) => {
                        let rendered = render(line, record);
                        proof {
                            assert(render.ensures((line, record), rendered));
                            assert(may_render(*render, text@, rendered));
                        }
                        if rendered.is_some() {
                            let pulled = Ok(rendered);
                            proof {
                                assert(spill_pull(*render, all, dropped, pulled));
                            }
                            return pulled;
                        }
                        proof {
                            dropped = dropped + 1;
                        }
                    },
                }
            },
        }
    }
}

/// Whose turn it is in the merge: the artifact's where its line is not behind
/// the spill's.
#[derive(Clone, Copy, Debug, PartialEq, Eq, Structural)]
pub enum MergeTurn {
    Artifact,
    Spill,
    Done,
}

/// Whose turn it is, given the next source line on either side.
pub open spec fn merge_turn(artifact: Option<u64>, spill: Option<u64>) -> MergeTurn {
    match (artifact, spill) {
        (None, None) => MergeTurn::Done,
        (Some(_), None) => MergeTurn::Artifact,
        (None, Some(_)) => MergeTurn::Spill,
        (Some(a), Some(s)) => if a <= s {
            MergeTurn::Artifact
        } else {
            MergeTurn::Spill
        },
    }
}

/// A merge of the artifact with the spill, two streams in line order, into
/// one. It holds one line of either side at a time.
pub struct SpillMerge {
    pub next_artifact: Option<(u64, String)>,
    pub next_spill: Option<RejectedRecord>,
    pub merged_lines: Vec<u64>,
}

impl SpillMerge {
    /// The source line of the next artifact line.
    pub open spec fn artifact_line_ahead(self) -> Option<u64> {
        match self.next_artifact {
            Some((line, _)) => Some(line),
            None => None,
        }
    }

    /// The text of the next artifact line.
    pub open spec fn artifact_text_ahead(self) -> Option<String> {
        match self.next_artifact {
            Some((_, text)) => Some(text),
            None => None,
        }
    }

    /// The source line of the next spilled rejection.
    pub open spec fn spill_line_ahead(self) -> Option<u64> {
        match self.next_spill {
            Some(rejection) => Some(rejection.line),
            None => None,
        }
    }

    /// Whose turn it is.
    pub open spec fn turn(self) -> MergeTurn {
        merge_turn(self.artifact_line_ahead(), self.spill_line_ahead())
    }

    /// Starts a merge: reads ahead one line of either side.
    pub fn begin<
        E,
        A: Iterator<Item = Result<String, E>>,
        I: Iterator<Item = Result<String, E>>,
        F: Fn(u64, serde_json::Map<String, Value>) -> Option<RejectedRecord>,
    >(artifact: &mut A, spill: &mut I, render: &F) -> (begun: Result<SpillMerge, MergeError<E>>)
        requires
            <A as IteratorSpec>::obeys_prophetic_iter_laws(old(artifact)),
            <A as IteratorSpec>::decrease(old(artifact)) is Some,
            <I as IteratorSpec>::obeys_prophetic_iter_laws(old(spill)),
            <I as IteratorSpec>::decrease(old(spill)) is Some,
            forall|line: u64, record: serde_json::Map<String, Value>| #[trigger]
                render.requires((line, record)),
        ensures
            match begun {
                Ok(merge) => {
                    &&& merge.merged_lines@.len() == 0
                    &&& artifact_pull(
                        <A as IteratorSpec>::remaining(old(artifact)),
                        Ok::<_, MergeError<E>>(merge.next_artifact),
                    )
                    &&& merge.next_artifact is Some ==> <A as IteratorSpec>::remaining(
                        final(artifact),
                    ) == <A as IteratorSpec>::remaining(old(artifact)).drop_first()
                    &&& exists|dropped: int|
                        {
                            &&& #[trigger] spill_pull(
                                *render,
                                <I as IteratorSpec>::remaining(old(spill)),
                                dropped,
                                Ok::<_, MergeError<E>>(merge.next_spill),
                            )
                            &&& merge.next_spill is Some ==> <I as IteratorSpec>::remaining(
                                final(spill),
                            ) == <I as IteratorSpec>::remaining(old(spill)).skip(dropped + 1)
                        }
                },
                Err(error) => {
                    ||| artifact_pull(
                        <A as IteratorSpec>::remaining(old(artifact)),
                        Err::<Option<(u64, String)>, _>(error),
                    )
                    ||| {
                        &&& exists|next: Option<(u64, String)>| #[trigger]
                            artifact_pull(
                                <A as IteratorSpec>::remaining(old(artifact)),
                                Ok::<_, MergeError<E>>(next),
                            )
                        &&& exists|dropped: int| #[trigger]
                            spill_pull(
                                *render,
                                <I as IteratorSpec>::remaining(old(spill)),
                                dropped,
                                Err::<Option<RejectedRecord>, _>(error),
                            )
                    }
                },
            },
            <A as IteratorSpec>::obeys_prophetic_iter_laws(final(artifact)),
            <A as IteratorSpec>::decrease(final(artifact)) is Some,
            <I as IteratorSpec>::obeys_prophetic_iter_laws(final(spill)),
            <I as IteratorSpec>::decrease(final(spill)) is Some,
    {
        let next_artifact = match next_artifact_line(artifact) {
            Ok(next) => next,
            Err(error) => {
                return Err(error);
            },
        };
        let next_spill = match next_spill_rejection(spill, render) {
            Ok(next) => next,
            Err(error) => {
                return Err(error);
            },
        };
        Ok(SpillMerge { next_artifact, next_spill, merged_lines: Vec::new() })
    }

    /// The next line of the merged artifact, or nothing once both sides have
    /// ended. The line that is handed out is replaced by the next one of its
    /// side before it is, so that a bad line ahead ends the merge first.
    pub fn next_line<
        E,
        A: Iterator<Item = Result<String, E>>,
        I: Iterator<Item = Result<String, E>>,
        F: Fn(u64, serde_json::Map<String, Value>) -> Option<RejectedRecord>,
    >(&mut self, artifact: &mut A, spill: &mut I, render: &F) -> (line: Result<
        Option<String>,
        MergeError<E>,
    >)
        requires
            <A as IteratorSpec>::obeys_prophetic_iter_laws(old(artifact)),
            <A as IteratorSpec>::decrease(old(artifact)) is Some,
            <I as IteratorSpec>::obeys_prophetic_iter_laws(old(spill)),
            <I as IteratorSpec>::decrease(old(spill)) is Some,
            forall|line: u64, record: serde_json::Map<String, Value>| #[trigger]
                render.requires((line, record)),
        ensures
            match old(self).turn() {
                MergeTurn::Done => line matches Ok(None) && *final(self) == *old(self),
                MergeTurn::Artifact => match line {
                    Ok(text) => {
                        &&& text == old(self).artifact_text_ahead()
                        &&& final(self).merged_lines@ == old(self).merged_lines@.push(
                            old(self).artifact_line_ahead()->0,
                        )
                        &&& final(self).next_spill == old(self).next_spill
                        &&& artifact_pull(
                            <A as IteratorSpec>::remaining(old(artifact)),
                            Ok::<_, MergeError<E>>(final(self).next_artifact),
                        )
                        &&& final(self).next_artifact is Some ==> {
                            &&& <A as IteratorSpec>::remaining(final(artifact))
                                == <A as IteratorSpec>::remaining(old(artifact)).drop_first()
                            &&& <A as IteratorSpec>::decrease(final(artifact))->0
                                < <A as IteratorSpec>::decrease(old(artifact))->0
                        }
                        &&& *final(spill) == *old(spill)
                    },
                    Err(error) => artifact_pull(
                        <A as IteratorSpec>::remaining(old(artifact)),
                        Err::<Option<(u64, String)>, _>(error),
                    ),
                },
                MergeTurn::Spill => match line {
                    Ok(text) => {
                        &&& text matches Some(text) && text@ == rendered_json(
                            rejection_tree(old(self).next_spill->0@),
                        )
                        &&& final(self).merged_lines@ == old(self).merged_lines@.push(
                            old(self).next_spill->0.line,
                        )
                        &&& final(self).next_artifact == old(self).next_artifact
                        &&& exists|dropped: int|
                            {
                                &&& #[trigger] spill_pull(
                                    *render,
                                    <I as IteratorSpec>::remaining(old(spill)),
                                    dropped,
                                    Ok::<_, MergeError<E>>(final(self).next_spill),
                                )
                                &&& final(self).next_spill is Some ==> {
                                    &&& <I as IteratorSpec>::remaining(final(spill))
                                        == <I as IteratorSpec>::remaining(old(spill)).skip(
                                        dropped + 1,
                                    )
                                    &&& <I as IteratorSpec>::decrease(final(spill))->0
                                        < <I as IteratorSpec>::decrease(old(spill))->0
                                }
                            }
                        &&& *final(artifact) == *old(artifact)
                    },
                    Err(error) => exists|dropped: int| #[trigger]
                        spill_pull(
                            *render,
                            <I as IteratorSpec>::remaining(old(spill)),
                            dropped,
                            Err::<Option<RejectedRecord>, _>(error),
                        ),
                },
            },
            <A as IteratorSpec>::obeys_prophetic_iter_laws(final(artifact)),
            <A as IteratorSpec>::decrease(final(artifact)) is Some,
            <I as IteratorSpec>::obeys_prophetic_iter_laws(final(spill)),
            <I as IteratorSpec>::decrease(final(spill)) is Some,
    {
        let artifact_turn = match (&self.next_artifact, &self.next_spill) {
            (None, None) => {
                return Ok(None);
            },
            (Some(_), None) => true,
            (None, Some(_)) => false,
            (Some((line, _)), Some(rejection)) => *line <= rejection.line,
        };
        if artifact_turn {
            let taken = self.next_artifact.take();
            self.next_artifact = match next_artifact_line(artifact) {
                Ok(next) => next,
                Err(error) => {
                    return Err(error);
                },
            };
            match taken {
                Some((line, text)) => {
                    self.merged_lines.push(line);
                    Ok(Some(text))
                },
                None => Ok(None),
            }
        } else {
            let taken = self.next_spill.take();
            self.next_spill = match next_spill_rejection(spill, render) {
                Ok(next) => next,
                Err(error) => {
                    return Err(error);
                },
            };
            match taken {
                Some(rejection) => {
                    self.merged_lines.push(rejection.line);
                    Ok(Some(artifact_line(&rejection)))
                },
                None => Ok(None),
            }
        }
    }
}

/// An artifact line: the source line it names, and its text.
pub type ArtifactEntry = (u64, Seq<char>);

/// The source lines of artifact lines.
pub open spec fn entry_lines(entries: Seq<ArtifactEntry>) -> Seq<u64> {
    entries.map_values(|entry: ArtifactEntry| entry.0)
}

/// The texts of artifact lines.
pub open spec fn entry_texts(entries: Seq<ArtifactEntry>) -> Seq<Seq<char>> {
    entries.map_values(|entry: ArtifactEntry| entry.1)
}

/// The source line that comes first.
pub open spec fn first_line(entries: Seq<ArtifactEntry>) -> Option<u64> {
    if entries.len() > 0 {
        Some(entries[0].0)
    } else {
        None
    }
}

/// The merged artifact, when the two sides hold these lines.
pub open spec fn merged_entries(
    artifact: Seq<ArtifactEntry>,
    spill: Seq<ArtifactEntry>,
) -> Seq<ArtifactEntry>
    decreases artifact.len() + spill.len(),
{
    match merge_turn(first_line(artifact), first_line(spill)) {
        MergeTurn::Done => seq![],
        MergeTurn::Artifact => if artifact.len() > 0 {
            seq![artifact[0]] + merged_entries(artifact.drop_first(), spill)
        } else {
            seq![]
        },
        MergeTurn::Spill => if spill.len() > 0 {
            seq![spill[0]] + merged_entries(artifact, spill.drop_first())
        } else {
            seq![]
        },
    }
}

/// The lines of the merged artifact, when the two sides hold these lines.
pub open spec fn merged_lines(artifact: Seq<u64>, spill: Seq<u64>) -> Seq<u64>
    decreases artifact.len() + spill.len(),
{
    let a = if artifact.len() > 0 {
        Some(artifact[0])
    } else {
        None
    };
    let s = if spill.len() > 0 {
        Some(spill[0])
    } else {
        None
    };
    match merge_turn(a, s) {
        MergeTurn::Done => seq![],
        MergeTurn::Artifact => if artifact.len() > 0 {
            seq![artifact[0]] + merged_lines(artifact.drop_first(), spill)
        } else {
            seq![]
        },
        MergeTurn::Spill => if spill.len() > 0 {
            seq![spill[0]] + merged_lines(artifact, spill.drop_first())
        } else {
            seq![]
        },
    }
}

/// Merged lines hold a line exactly where one of the two sides does.
pub proof fn lemma_merged_lines_contain(artifact: Seq<u64>, spill: Seq<u64>, line: u64)
    ensures
        merged_lines(artifact, spill).contains(line) <==> artifact.contains(line)
            || spill.contains(line),
    decreases artifact.len() + spill.len(),
{
    let merged = merged_lines(artifact, spill);
    if artifact.len() == 0 && spill.len() == 0 {
        assert(merged.len() == 0);
    } else if spill.len() == 0 || (artifact.len() > 0 && artifact[0] <= spill[0]) {
        let rest = artifact.drop_first();
        lemma_merged_lines_contain(rest, spill, line);
        lemma_prepended_contains(artifact[0], merged_lines(rest, spill), line);
        lemma_prepended_contains(artifact[0], rest, line);
        assert(artifact =~= seq![artifact[0]] + rest);
    } else {
        let rest = spill.drop_first();
        lemma_merged_lines_contain(artifact, rest, line);
        lemma_prepended_contains(spill[0], merged_lines(artifact, rest), line);
        lemma_prepended_contains(spill[0], rest, line);
        assert(spill =~= seq![spill[0]] + rest);
    }
}

proof fn lemma_prepended_contains(first: u64, rest: Seq<u64>, line: u64)
    ensures
        (seq![first] + rest).contains(line) <==> first == line || rest.contains(line),
{
    let all = seq![first] + rest;
    if first == line {
        assert(all[0] == line);
    }
    if rest.contains(line) {
        let k = choose|k: int| 0 <= k < rest.len() && rest[k] == line;
        assert(all[k + 1] == line);
    }
    if all.contains(line) {
        let k = choose|k: int| 0 <= k < all.len() && all[k] == line;
        if k > 0 {
            assert(rest[k - 1] == line);
        }
    }
}

/// Whether the lines never step back.
pub open spec fn in_line_order(lines: Seq<u64>) -> bool {
    forall|i: int, j: int| 0 <= i <= j < lines.len() ==> #[trigger] lines[i] <= #[trigger] lines[j]
}

/// Merging two streams in line order gives one in line order that holds every
/// line of both and no other.
pub proof fn law_merge_keeps_line_order(artifact: Seq<u64>, spill: Seq<u64>)
    requires
        in_line_order(artifact),
        in_line_order(spill),
    ensures
        in_line_order(merged_lines(artifact, spill)),
        merged_lines(artifact, spill).to_multiset() == artifact.to_multiset().add(
            spill.to_multiset(),
        ),
        merged_lines(artifact, spill).len() == artifact.len() + spill.len(),
    decreases artifact.len() + spill.len(),
{
    broadcast use vstd::seq_lib::group_to_multiset_ensures;

    let merged = merged_lines(artifact, spill);
    if artifact.len() == 0 && spill.len() == 0 {
        assert(merged.to_multiset() =~= artifact.to_multiset().add(spill.to_multiset()));
    } else if spill.len() == 0 || (artifact.len() > 0 && artifact[0] <= spill[0]) {
        let rest = artifact.drop_first();
        let later = merged_lines(rest, spill);
        assert forall|i: int, j: int| 0 <= i <= j < rest.len() implies #[trigger] rest[i]
            <= #[trigger] rest[j] by {
            assert(artifact[i + 1] <= artifact[j + 1]);
        }
        law_merge_keeps_line_order(rest, spill);
        assert forall|k: int| 0 <= k < later.len() implies artifact[0] <= #[trigger] later[k] by {
            assert(later.contains(later[k]));
            assert(later.to_multiset().count(later[k]) > 0);
            if rest.to_multiset().count(later[k]) > 0 {
                assert(rest.contains(later[k]));
                let m = choose|m: int| 0 <= m < rest.len() && rest[m] == later[k];
                assert(artifact[0] <= artifact[m + 1]);
            } else {
                assert(spill.contains(later[k]));
                let m = choose|m: int| 0 <= m < spill.len() && spill[m] == later[k];
                assert(spill[0] <= spill[m]);
            }
        }
        assert(merged =~= seq![artifact[0]] + later);
        lemma_prepend_multiset(artifact[0], later);
        lemma_prepend_multiset(artifact[0], rest);
        assert(artifact =~= seq![artifact[0]] + rest);
        assert(merged.to_multiset() =~= artifact.to_multiset().add(spill.to_multiset()));
    } else {
        let rest = spill.drop_first();
        let later = merged_lines(artifact, rest);
        assert forall|i: int, j: int| 0 <= i <= j < rest.len() implies #[trigger] rest[i]
            <= #[trigger] rest[j] by {
            assert(spill[i + 1] <= spill[j + 1]);
        }
        law_merge_keeps_line_order(artifact, rest);
        assert forall|k: int| 0 <= k < later.len() implies spill[0] <= #[trigger] later[k] by {
            assert(later.contains(later[k]));
            assert(later.to_multiset().count(later[k]) > 0);
            if rest.to_multiset().count(later[k]) > 0 {
                assert(rest.contains(later[k]));
                let m = choose|m: int| 0 <= m < rest.len() && rest[m] == later[k];
                assert(spill[0] <= spill[m + 1]);
            } else {
                assert(artifact.contains(later[k]));
                let m = choose|m: int| 0 <= m < artifact.len() && artifact[m] == later[k];
                assert(artifact[0] <= artifact[m]);
            }
        }
        assert(merged =~= seq![spill[0]] + later);
        lemma_prepend_multiset(spill[0], later);
        lemma_prepend_multiset(spill[0], rest);
        assert(spill =~= seq![spill[0]] + rest);
        assert(merged.to_multiset() =~= artifact.to_multiset().add(spill.to_multiset()));
    }
}

proof fn lemma_prepend_multiset(first: u64, rest: Seq<u64>)
    ensures
        (seq![first] + rest).to_multiset() == rest.to_multiset().insert(first),
{
    broadcast use vstd::seq_lib::group_to_multiset_ensures;

    vstd::seq_lib::lemma_multiset_commutative(seq![first], rest);
    assert(seq![first] =~= Seq::<u64>::empty().push(first));
    assert((seq![first] + rest).to_multiset() =~= rest.to_multiset().insert(first));
}

/// Whether these are the source lines that the lines of an artifact name.
pub open spec fn artifact_lines<E>(lines: Seq<Result<String, E>>, numbers: Seq<u64>) -> bool {
    &&& numbers.len() == lines.len()
    &&& forall|i: int|
        0 <= i < lines.len() ==> #[trigger] lines[i] is Ok && names_line(
            lines[i]->Ok_0@,
            numbers[i],
        )
}

/// Whether the lines of a spill may render so.
pub open spec fn spill_renders<
    E,
    F: Fn(u64, serde_json::Map<String, Value>) -> Option<RejectedRecord>,
>(render: F, lines: Seq<Result<String, E>>, rendered: Seq<Option<RejectedRecord>>) -> bool {
    &&& rendered.len() == lines.len()
    &&& forall|i: int|
        0 <= i < lines.len() ==> #[trigger] lines[i] is Ok && may_render(
            render,
            lines[i]->Ok_0@,
            rendered[i],
        )
}

/// The source lines of the records that rendered as rejections.
pub open spec fn rendered_lines(rendered: Seq<Option<RejectedRecord>>) -> Seq<u64>
    decreases rendered.len(),
{
    if rendered.len() == 0 {
        seq![]
    } else {
        let before = rendered_lines(rendered.drop_last());
        match rendered.last() {
            Some(rejection) => before.push(rejection.line),
            None => before,
        }
    }
}

proof fn lemma_dropped_lines_add_nothing(rendered: Seq<Option<RejectedRecord>>, dropped: nat)
    ensures
        rendered_entries(rendered + Seq::new(dropped, |i: int| None::<RejectedRecord>))
            == rendered_entries(rendered),
    decreases dropped,
{
    let none = Seq::new(dropped, |i: int| None::<RejectedRecord>);
    if dropped == 0 {
        assert(rendered + none =~= rendered);
    } else {
        let fewer = Seq::new((dropped - 1) as nat, |i: int| None::<RejectedRecord>);
        lemma_dropped_lines_add_nothing(rendered, (dropped - 1) as nat);
        assert((rendered + none).drop_last() =~= rendered + fewer);
        assert((rendered + none).last() is None);
    }
}

/// The merged artifact names the merged source lines.
pub proof fn lemma_merged_entries_name_the_merged_lines(
    artifact: Seq<ArtifactEntry>,
    spill: Seq<ArtifactEntry>,
)
    ensures
        entry_lines(merged_entries(artifact, spill)) == merged_lines(
            entry_lines(artifact),
            entry_lines(spill),
        ),
    decreases artifact.len() + spill.len(),
{
    let merged = merged_entries(artifact, spill);
    if artifact.len() == 0 && spill.len() == 0 {
        assert(entry_lines(merged) =~= merged_lines(entry_lines(artifact), entry_lines(spill)));
    } else if spill.len() == 0 || (artifact.len() > 0 && artifact[0].0 <= spill[0].0) {
        let rest = artifact.drop_first();
        lemma_merged_entries_name_the_merged_lines(rest, spill);
        assert(entry_lines(rest) =~= entry_lines(artifact).drop_first());
        assert(entry_lines(merged) =~= seq![artifact[0].0] + entry_lines(
            merged_entries(rest, spill),
        ));
    } else {
        let rest = spill.drop_first();
        lemma_merged_entries_name_the_merged_lines(artifact, rest);
        assert(entry_lines(rest) =~= entry_lines(spill).drop_first());
        assert(entry_lines(merged) =~= seq![spill[0].0] + entry_lines(
            merged_entries(artifact, rest),
        ));
    }
}

/// The lines of an artifact that name these source lines.
pub open spec fn artifact_entries<E>(
    lines: Seq<Result<String, E>>,
    numbers: Seq<u64>,
) -> Seq<ArtifactEntry> {
    Seq::new(numbers.len(), |i: int| (numbers[i], lines[i]->Ok_0@))
}

/// The artifact line of a rejection.
pub open spec fn rejection_entry(rejection: RejectedRecord) -> ArtifactEntry {
    (rejection.line, rendered_json(rejection_tree(rejection@)))
}

/// The artifact lines of the records that rendered as rejections.
pub open spec fn rendered_entries(rendered: Seq<Option<RejectedRecord>>) -> Seq<ArtifactEntry>
    decreases rendered.len(),
{
    if rendered.len() == 0 {
        seq![]
    } else {
        let before = rendered_entries(rendered.drop_last());
        match rendered.last() {
            Some(rejection) => before.push(rejection_entry(rejection)),
            None => before,
        }
    }
}

/// The merged artifact, when the artifact names these source lines and the
/// spill renders as these rejections.
pub open spec fn merged_artifact<E>(
    lines: Seq<Result<String, E>>,
    numbers: Seq<u64>,
    rendered: Seq<Option<RejectedRecord>>,
) -> Seq<ArtifactEntry> {
    merged_entries(artifact_entries(lines, numbers), rendered_entries(rendered))
}

/// The artifact lines of rejections name their source lines.
pub proof fn lemma_rendered_entries_name_the_lines(rendered: Seq<Option<RejectedRecord>>)
    ensures
        entry_lines(rendered_entries(rendered)) == rendered_lines(rendered),
    decreases rendered.len(),
{
    if rendered.len() > 0 {
        lemma_rendered_entries_name_the_lines(rendered.drop_last());
    }
    assert(entry_lines(rendered_entries(rendered)) =~= rendered_lines(rendered));
}

/// Whether lines continue with this one ahead.
spec fn continues_with(lines: Seq<ArtifactEntry>, ahead: Option<ArtifactEntry>) -> bool {
    match ahead {
        Some(entry) => lines.len() > 0 && lines[0] == entry,
        None => lines.len() == 0,
    }
}

/// Whether merging is on the way: whatever the sides continue with, the lines
/// merged so far come first.
spec fn merging(
    artifact: Seq<ArtifactEntry>,
    spill: Seq<ArtifactEntry>,
    merged: Seq<ArtifactEntry>,
    artifact_ahead: Option<ArtifactEntry>,
    spill_ahead: Option<ArtifactEntry>,
) -> bool {
    forall|a: Seq<ArtifactEntry>, s: Seq<ArtifactEntry>|
        continues_with(a, artifact_ahead) && continues_with(s, spill_ahead)
            ==> #[trigger] merged_entries(artifact + a, spill + s) == merged + merged_entries(a, s)
}

/// The source line of an artifact line, where there is one.
pub open spec fn line_of(entry: Option<ArtifactEntry>) -> Option<u64> {
    match entry {
        Some(entry) => Some(entry.0),
        None => None,
    }
}

proof fn lemma_artifact_turn(
    artifact: Seq<ArtifactEntry>,
    spill: Seq<ArtifactEntry>,
    merged: Seq<ArtifactEntry>,
    entry: ArtifactEntry,
    next: Option<ArtifactEntry>,
    spill_ahead: Option<ArtifactEntry>,
)
    requires
        merging(artifact, spill, merged, Some(entry), spill_ahead),
        merge_turn(Some(entry.0), line_of(spill_ahead)) == MergeTurn::Artifact,
    ensures
        merging(artifact.push(entry), spill, merged.push(entry), next, spill_ahead),
{
    assert forall|a: Seq<ArtifactEntry>, s: Seq<ArtifactEntry>|
        continues_with(a, next) && continues_with(s, spill_ahead) implies #[trigger] merged_entries(
        artifact.push(entry) + a,
        spill + s,
    ) == merged.push(entry) + merged_entries(a, s) by {
        let longer = seq![entry] + a;
        assert(continues_with(longer, Some(entry)));
        assert(artifact + longer =~= artifact.push(entry) + a);
        assert(merged_entries(artifact + longer, spill + s) == merged + merged_entries(longer, s));
        assert(longer.drop_first() =~= a);
        assert(merged_entries(longer, s) == seq![entry] + merged_entries(a, s));
        assert(merged + (seq![entry] + merged_entries(a, s)) =~= merged.push(entry)
            + merged_entries(a, s));
    }
}

proof fn lemma_spill_turn(
    artifact: Seq<ArtifactEntry>,
    spill: Seq<ArtifactEntry>,
    merged: Seq<ArtifactEntry>,
    artifact_ahead: Option<ArtifactEntry>,
    entry: ArtifactEntry,
    next: Option<ArtifactEntry>,
)
    requires
        merging(artifact, spill, merged, artifact_ahead, Some(entry)),
        merge_turn(line_of(artifact_ahead), Some(entry.0)) == MergeTurn::Spill,
    ensures
        merging(artifact, spill.push(entry), merged.push(entry), artifact_ahead, next),
{
    assert forall|a: Seq<ArtifactEntry>, s: Seq<ArtifactEntry>|
        continues_with(a, artifact_ahead) && continues_with(
            s,
            next,
        ) implies #[trigger] merged_entries(artifact + a, spill.push(entry) + s) == merged.push(
        entry,
    ) + merged_entries(a, s) by {
        let longer = seq![entry] + s;
        assert(continues_with(longer, Some(entry)));
        assert(spill + longer =~= spill.push(entry) + s);
        assert(merged_entries(artifact + a, spill + longer) == merged + merged_entries(a, longer));
        assert(longer.drop_first() =~= s);
        assert(merged_entries(a, longer) == seq![entry] + merged_entries(a, s));
        assert(merged + (seq![entry] + merged_entries(a, s)) =~= merged.push(entry)
            + merged_entries(a, s));
    }
}

/// What a pull from the artifact adds to the source lines read so far.
spec fn with_pulled_line(numbers: Seq<u64>, pulled: Option<(u64, String)>) -> Seq<u64> {
    match pulled {
        Some((line, _)) => numbers.push(line),
        None => numbers,
    }
}

/// The artifact line ahead, where there is one.
spec fn artifact_ahead(pulled: Option<(u64, String)>) -> Option<ArtifactEntry> {
    match pulled {
        Some((line, text)) => Some((line, text@)),
        None => None,
    }
}

/// The artifact line of the rejection ahead, where there is one.
spec fn rejection_ahead(pulled: Option<RejectedRecord>) -> Option<ArtifactEntry> {
    match pulled {
        Some(rejection) => Some(rejection_entry(rejection)),
        None => None,
    }
}

/// Lines with the one ahead, where there is one.
spec fn with_ahead(
    lines: Seq<ArtifactEntry>,
    ahead: Option<ArtifactEntry>,
) -> Seq<ArtifactEntry> {
    match ahead {
        Some(entry) => lines.push(entry),
        None => lines,
    }
}

/// What a pull from the spill adds to the records rendered so far.
spec fn with_pulled_rejection(
    rendered: Seq<Option<RejectedRecord>>,
    dropped: nat,
    pulled: Option<RejectedRecord>,
) -> Seq<Option<RejectedRecord>> {
    let passed = rendered + Seq::new(dropped, |i: int| None::<RejectedRecord>);
    match pulled {
        Some(rejection) => passed.push(Some(rejection)),
        None => passed,
    }
}

/// Whether the artifact was read so far: these lines, and the rest is still to
/// come unless nothing is ahead.
spec fn artifact_read<E>(
    all: Seq<Result<String, E>>,
    numbers: Seq<u64>,
    rest: Seq<Result<String, E>>,
    ahead: bool,
) -> bool {
    &&& numbers.len() <= all.len()
    &&& artifact_lines(all.take(numbers.len() as int), numbers)
    &&& if ahead {
        rest == all.skip(numbers.len() as int)
    } else {
        numbers.len() == all.len()
    }
}

/// Whether the spill was read so far.
spec fn spill_read<E, F: Fn(u64, serde_json::Map<String, Value>) -> Option<RejectedRecord>>(
    render: F,
    all: Seq<Result<String, E>>,
    rendered: Seq<Option<RejectedRecord>>,
    rest: Seq<Result<String, E>>,
    ahead: bool,
) -> bool {
    &&& rendered.len() <= all.len()
    &&& spill_renders(render, all.take(rendered.len() as int), rendered)
    &&& if ahead {
        rest == all.skip(rendered.len() as int)
    } else {
        rendered.len() == all.len()
    }
}

proof fn lemma_artifact_pull<E>(
    all: Seq<Result<String, E>>,
    numbers: Seq<u64>,
    rest: Seq<Result<String, E>>,
    pulled: Option<(u64, String)>,
    left: Seq<Result<String, E>>,
)
    requires
        artifact_read(all, numbers, rest, true),
        artifact_pull(rest, Ok::<_, MergeError<E>>(pulled)),
        pulled is Some ==> left == rest.drop_first(),
    ensures
        artifact_read(all, with_pulled_line(numbers, pulled), left, pulled is Some),
        artifact_entries(all, with_pulled_line(numbers, pulled)) == with_ahead(
            artifact_entries(all, numbers),
            artifact_ahead(pulled),
        ),
{
    let grown = with_pulled_line(numbers, pulled);
    match pulled {
        Some((line, text)) => {
            let at = numbers.len() as int;
            assert(rest[0] == all[at]);
            assert forall|i: int| 0 <= i < grown.len() implies #[trigger] all.take(
                grown.len() as int,
            )[i] is Ok && names_line(all.take(grown.len() as int)[i]->Ok_0@, grown[i]) by {
                if i < at {
                    assert(all.take(at)[i] is Ok);
                }
            }
            assert(left =~= all.skip(at + 1));
            assert(artifact_entries(all, grown) =~= artifact_entries(all, numbers).push(
                (line, text@),
            ));
        },
        None => {},
    }
}

proof fn lemma_spill_pull<E, F: Fn(u64, serde_json::Map<String, Value>) -> Option<RejectedRecord>>(
    render: F,
    all: Seq<Result<String, E>>,
    rendered: Seq<Option<RejectedRecord>>,
    rest: Seq<Result<String, E>>,
    dropped: int,
    pulled: Option<RejectedRecord>,
    left: Seq<Result<String, E>>,
)
    requires
        spill_read(render, all, rendered, rest, true),
        spill_pull(render, rest, dropped, Ok::<_, MergeError<E>>(pulled)),
        pulled is Some ==> left == rest.skip(dropped + 1),
    ensures
        spill_read(
            render,
            all,
            with_pulled_rejection(rendered, dropped as nat, pulled),
            left,
            pulled is Some,
        ),
        rendered_entries(with_pulled_rejection(rendered, dropped as nat, pulled)) == with_ahead(
            rendered_entries(rendered),
            rejection_ahead(pulled),
        ),
{
    let grown = with_pulled_rejection(rendered, dropped as nat, pulled);
    let at = rendered.len() as int;
    let passed = rendered + Seq::new(dropped as nat, |i: int| None::<RejectedRecord>);
    lemma_dropped_lines_add_nothing(rendered, dropped as nat);
    if pulled is Some {
        assert(grown.drop_last() =~= passed);
        assert(dropped < rest.len());
        assert(rest[dropped] == all[at + dropped]);
        assert(may_render(render, all[at + dropped]->Ok_0@, pulled));
        assert(left =~= all.skip(at + dropped + 1));
    } else {
        assert(dropped == rest.len());
    }
    assert forall|i: int| 0 <= i < grown.len() implies #[trigger] all.take(
        grown.len() as int,
    )[i] is Ok && may_render(render, all.take(grown.len() as int)[i]->Ok_0@, grown[i]) by {
        if i < at {
            assert(all.take(at)[i] is Ok);
            assert(grown[i] == rendered[i]);
        } else {
            assert(rest[i - at] == all[i]);
            if i < at + dropped {
                assert(grown[i] is None);
                assert(rest[i - at] is Ok);
            }
        }
    }
}

/// How far a merge came that broke off: the source lines of the artifact and the
/// rejections of the spill that were read, the line of either side that is still
/// to be written, and the lines handed over.
#[verifier::reject_recursive_types(E)]
pub struct BrokenMerge<E> {
    pub numbers: Seq<u64>,
    pub rendered: Seq<Option<RejectedRecord>>,
    pub artifact_next: Option<ArtifactEntry>,
    pub spill_next: Option<ArtifactEntry>,
    pub writes: Seq<LineWrite<E>>,
}

/// The line ahead, where there is one.
pub open spec fn line_ahead(next: Option<ArtifactEntry>) -> Seq<ArtifactEntry> {
    match next {
        Some(entry) => seq![entry],
        None => seq![],
    }
}

/// Whether a merge may have come so far: of what it read, it handed over all but
/// the line ahead of either side, in merged order; and a side without a line
/// ahead has ended.
pub open spec fn merge_underway<
    E,
    F: Fn(u64, serde_json::Map<String, Value>) -> Option<RejectedRecord>,
>(
    artifact: Seq<Result<String, E>>,
    spill: Seq<Result<String, E>>,
    render: F,
    broken: BrokenMerge<E>,
) -> bool {
    let read = artifact_entries(artifact, broken.numbers);
    let rejections = rendered_entries(broken.rendered);
    let merged = merged_entries(read, rejections);
    &&& broken.numbers.len() <= artifact.len()
    &&& artifact_lines(artifact.take(broken.numbers.len() as int), broken.numbers)
    &&& broken.rendered.len() <= spill.len()
    &&& spill_renders(render, spill.take(broken.rendered.len() as int), broken.rendered)
    &&& match broken.artifact_next {
        Some(entry) => read.len() > 0 && read.last() == entry,
        None => broken.numbers.len() == artifact.len(),
    }
    &&& match broken.spill_next {
        Some(entry) => rejections.len() > 0 && rejections.last() == entry,
        None => broken.rendered.len() == spill.len(),
    }
    &&& broken.writes.len() <= merged.len()
    &&& merged.skip(broken.writes.len() as int) == merged_entries(
        line_ahead(broken.artifact_next),
        line_ahead(broken.spill_next),
    )
    &&& forall|i: int|
        0 <= i < broken.writes.len() ==> (#[trigger] broken.writes[i]).line == merged[i].1
}

/// Whether no write failed.
pub open spec fn no_write_failed<E>(writes: Seq<LineWrite<E>>) -> bool {
    forall|i: int| 0 <= i < writes.len() ==> (#[trigger] writes[i]).outcome is Ok
}

/// Whether reading on from here fails so: the artifact's next line where the
/// turn is the artifact's, and what follows in the spill where it is the
/// spill's.
pub open spec fn reading_on_fails<
    E,
    F: Fn(u64, serde_json::Map<String, Value>) -> Option<RejectedRecord>,
>(
    artifact: Seq<Result<String, E>>,
    spill: Seq<Result<String, E>>,
    render: F,
    broken: BrokenMerge<E>,
    error: MergeError<E>,
) -> bool {
    match merge_turn(line_of(broken.artifact_next), line_of(broken.spill_next)) {
        MergeTurn::Artifact => artifact_pull(
            artifact.skip(broken.numbers.len() as int),
            Err::<Option<(u64, String)>, _>(error),
        ),
        MergeTurn::Spill => exists|dropped: int| #[trigger]
            spill_pull(
                render,
                spill.skip(broken.rendered.len() as int),
                dropped,
                Err::<Option<RejectedRecord>, _>(error),
            ),
        MergeTurn::Done => false,
    }
}

/// Whether a merge breaks off here with this error: reading on fails so, or the
/// last write did.
pub open spec fn breaks_merge<
    E,
    F: Fn(u64, serde_json::Map<String, Value>) -> Option<RejectedRecord>,
>(
    artifact: Seq<Result<String, E>>,
    spill: Seq<Result<String, E>>,
    render: F,
    broken: BrokenMerge<E>,
    error: MergeError<E>,
) -> bool {
    ||| {
        &&& no_write_failed(broken.writes)
        &&& reading_on_fails(artifact, spill, render, broken, error)
    }
    ||| {
        &&& broken.writes.len() > 0
        &&& no_write_failed(broken.writes.drop_last())
        &&& error matches MergeError::Io(raised)
        &&& broken.writes.last().outcome == Err::<(), E>(raised)
    }
}

/// Whether a merge cannot start: the first line of the artifact cannot be read,
/// or it can and the first rejection of the spill cannot.
pub open spec fn merge_refused<
    E,
    F: Fn(u64, serde_json::Map<String, Value>) -> Option<RejectedRecord>,
>(
    artifact: Seq<Result<String, E>>,
    spill: Seq<Result<String, E>>,
    render: F,
    error: MergeError<E>,
) -> bool {
    ||| artifact_pull(artifact, Err::<Option<(u64, String)>, _>(error))
    ||| {
        &&& exists|next: Option<(u64, String)>| #[trigger]
            artifact_pull(artifact, Ok::<_, MergeError<E>>(next))
        &&& exists|dropped: int| #[trigger]
            spill_pull(render, spill, dropped, Err::<Option<RejectedRecord>, _>(error))
    }
}

proof fn lemma_merge_underway<
    E,
    F: Fn(u64, serde_json::Map<String, Value>) -> Option<RejectedRecord>,
>(
    artifact: Seq<Result<String, E>>,
    spill: Seq<Result<String, E>>,
    render: F,
    broken: BrokenMerge<E>,
    artifact_done: Seq<ArtifactEntry>,
    spill_done: Seq<ArtifactEntry>,
    merged: Seq<ArtifactEntry>,
)
    requires
        broken.numbers.len() <= artifact.len(),
        artifact_lines(artifact.take(broken.numbers.len() as int), broken.numbers),
        broken.rendered.len() <= spill.len(),
        spill_renders(render, spill.take(broken.rendered.len() as int), broken.rendered),
        broken.artifact_next is None ==> broken.numbers.len() == artifact.len(),
        broken.spill_next is None ==> broken.rendered.len() == spill.len(),
        artifact_entries(artifact, broken.numbers) == with_ahead(
            artifact_done,
            broken.artifact_next,
        ),
        rendered_entries(broken.rendered) == with_ahead(spill_done, broken.spill_next),
        merging(artifact_done, spill_done, merged, broken.artifact_next, broken.spill_next),
        broken.writes.len() == merged.len(),
        forall|i: int|
            0 <= i < broken.writes.len() ==> (#[trigger] broken.writes[i]).line == merged[i].1,
    ensures
        merge_underway(artifact, spill, render, broken),
{
    let a = line_ahead(broken.artifact_next);
    let s = line_ahead(broken.spill_next);
    assert(continues_with(a, broken.artifact_next));
    assert(continues_with(s, broken.spill_next));
    assert(artifact_done + a =~= artifact_entries(artifact, broken.numbers));
    assert(spill_done + s =~= rendered_entries(broken.rendered));
    let all = merged_entries(artifact_done + a, spill_done + s);
    assert(all == merged + merged_entries(a, s));
    assert(all.skip(broken.writes.len() as int) =~= merged_entries(a, s));
    assert forall|i: int| 0 <= i < broken.writes.len() implies (
    #[trigger] broken.writes[i]).line == all[i].1 by {
        assert(all[i] == merged[i]);
    }
}

/// Merges the lines of the artifact and of the spill, and writes the merged
/// lines one after another. The result is their source lines.
pub fn merge_spill_file<
    E,
    A: Iterator<Item = Result<String, E>>,
    I: Iterator<Item = Result<String, E>>,
    F: Fn(u64, serde_json::Map<String, Value>) -> Option<RejectedRecord>,
    W: LineWriter<E>,
>(artifact: A, spill: I, render: &F, write: &mut W) -> (lines: Result<Vec<u64>, MergeError<E>>)
    requires
        artifact.obeys_prophetic_iter_laws(),
        artifact.decrease() is Some,
        spill.obeys_prophetic_iter_laws(),
        spill.decrease() is Some,
        forall|line: u64, record: serde_json::Map<String, Value>| #[trigger]
            render.requires((line, record)),
        old(write).ready(),
    ensures
        match lines {
            Ok(lines) => exists|
                numbers: Seq<u64>,
                rendered: Seq<Option<RejectedRecord>>,
                writes: Seq<LineWrite<E>>,
            |
                {
                    &&& #[trigger] artifact_lines(artifact.remaining(), numbers)
                    &&& #[trigger] spill_renders(*render, spill.remaining(), rendered)
                    &&& lines@ == merged_lines(numbers, rendered_lines(rendered))
                    &&& lines@ == entry_lines(
                        merged_artifact(artifact.remaining(), numbers, rendered),
                    )
                    &&& #[trigger] all_written(
                        entry_texts(merged_artifact(artifact.remaining(), numbers, rendered)),
                        writes,
                    )
                    &&& final(write).handed() == old(write).handed() + writes
                },
            Err(error) => {
                ||| {
                    &&& merge_refused(artifact.remaining(), spill.remaining(), *render, error)
                    &&& final(write).handed() == old(write).handed()
                }
                ||| exists|broken: BrokenMerge<E>|
                    {
                        &&& #[trigger] merge_underway(
                            artifact.remaining(),
                            spill.remaining(),
                            *render,
                            broken,
                        )
                        &&& breaks_merge(
                            artifact.remaining(),
                            spill.remaining(),
                            *render,
                            broken,
                            error,
                        )
                        &&& final(write).handed() == old(write).handed() + broken.writes
                    }
            },
        },
        final(write).ready(),
        final(write).target() == old(write).target(),
{
    let ghost all_artifact = artifact.remaining();
    let ghost all_spill = spill.remaining();
    let ghost handed_before = write.handed();
    let ghost mut writes: Seq<LineWrite<E>> = seq![];
    let mut artifact_now = artifact;
    let mut spill_now = spill;
    proof {
        assert(write.handed() =~= handed_before + writes);
    }
    let mut merge = match SpillMerge::begin(&mut artifact_now, &mut spill_now, render) {
        Ok(merge) => merge,
        Err(error) => {
            proof {
                assert(merge_refused(all_artifact, all_spill, *render, error));
            }
            return Err(error);
        },
    };
    let ghost mut numbers: Seq<u64> = seq![];
    let ghost mut artifact_done: Seq<ArtifactEntry> = seq![];
    let ghost mut spill_done: Seq<ArtifactEntry> = seq![];
    let ghost mut merged: Seq<ArtifactEntry> = seq![];
    proof {
        let dropped = choose|dropped: int|
            {
                &&& #[trigger] spill_pull(
                    *render,
                    all_spill,
                    dropped,
                    Ok::<_, MergeError<E>>(merge.next_spill),
                )
                &&& merge.next_spill is Some ==> spill_now.remaining() == all_spill.skip(
                    dropped + 1,
                )
            };
        assert(all_artifact.skip(0) =~= all_artifact);
        assert(all_spill.skip(0) =~= all_spill);
        lemma_artifact_pull(
            all_artifact,
            numbers,
            all_artifact,
            merge.next_artifact,
            artifact_now.remaining(),
        );
        lemma_spill_pull(
            *render,
            all_spill,
            seq![],
            all_spill,
            dropped,
            merge.next_spill,
            spill_now.remaining(),
        );
        assert(artifact_entries(all_artifact, numbers) =~= artifact_done);
        numbers = with_pulled_line(numbers, merge.next_artifact);
        assert forall|a: Seq<ArtifactEntry>, s: Seq<ArtifactEntry>|
            continues_with(a, artifact_ahead(merge.next_artifact)) && continues_with(
                s,
                rejection_ahead(merge.next_spill),
            ) implies #[trigger] merged_entries(artifact_done + a, spill_done + s) == merged
            + merged_entries(a, s) by {
            assert(artifact_done + a =~= a);
            assert(spill_done + s =~= s);
            assert(merged + merged_entries(a, s) =~= merged_entries(a, s));
        }
        assert(merge.merged_lines@ =~= entry_lines(merged));
    }
    loop
        invariant
            <A as IteratorSpec>::obeys_prophetic_iter_laws(&artifact_now),
            <A as IteratorSpec>::decrease(&artifact_now) is Some,
            <I as IteratorSpec>::obeys_prophetic_iter_laws(&spill_now),
            <I as IteratorSpec>::decrease(&spill_now) is Some,
            forall|line: u64, record: serde_json::Map<String, Value>| #[trigger]
                render.requires((line, record)),
            write.ready(),
            write.target() == old(write).target(),
            handed_before == old(write).handed(),
            write.handed() == handed_before + writes,
            all_artifact == artifact.remaining(),
            all_spill == spill.remaining(),
            artifact_read(
                all_artifact,
                numbers,
                <A as IteratorSpec>::remaining(&artifact_now),
                merge.next_artifact is Some,
            ),
            artifact_entries(all_artifact, numbers) == with_ahead(
                artifact_done,
                artifact_ahead(merge.next_artifact),
            ),
            exists|rendered: Seq<Option<RejectedRecord>>|
                {
                    &&& #[trigger] spill_read(
                        *render,
                        all_spill,
                        rendered,
                        <I as IteratorSpec>::remaining(&spill_now),
                        merge.next_spill is Some,
                    )
                    &&& rendered_entries(rendered) == with_ahead(
                        spill_done,
                        rejection_ahead(merge.next_spill),
                    )
                },
            merging(
                artifact_done,
                spill_done,
                merged,
                artifact_ahead(merge.next_artifact),
                rejection_ahead(merge.next_spill),
            ),
            merge.merged_lines@ == entry_lines(merged),
            all_written(entry_texts(merged), writes),
        ensures
            merge.next_artifact is None,
            merge.next_spill is None,
        decreases
                (if merge.next_artifact is Some {
                    1int
                } else {
                    0
                }) + (if merge.next_spill is Some {
                    1int
                } else {
                    0
                }),
                <A as IteratorSpec>::decrease(&artifact_now)->0 + <I as IteratorSpec>::decrease(
                    &spill_now,
                )->0,
    {
        let ghost before = merge;
        let ghost rest_artifact = <A as IteratorSpec>::remaining(&artifact_now);
        let ghost rest_spill = <I as IteratorSpec>::remaining(&spill_now);
        let text = match merge.next_line(&mut artifact_now, &mut spill_now, render) {
            Err(error) => {
                proof {
                    let rendered = choose|rendered: Seq<Option<RejectedRecord>>|
                        {
                            &&& #[trigger] spill_read(
                                *render,
                                all_spill,
                                rendered,
                                rest_spill,
                                before.next_spill is Some,
                            )
                            &&& rendered_entries(rendered) == with_ahead(
                                spill_done,
                                rejection_ahead(before.next_spill),
                            )
                        };
                    let broken = BrokenMerge {
                        numbers,
                        rendered,
                        artifact_next: artifact_ahead(before.next_artifact),
                        spill_next: rejection_ahead(before.next_spill),
                        writes,
                    };
                    lemma_merge_underway(
                        all_artifact,
                        all_spill,
                        *render,
                        broken,
                        artifact_done,
                        spill_done,
                        merged,
                    );
                    assert(reading_on_fails(all_artifact, all_spill, *render, broken, error));
                    assert(breaks_merge(all_artifact, all_spill, *render, broken, error));
                }
                return Err(error);
            },
            Ok(None) => {
                proof {
                    let rendered = choose|rendered: Seq<Option<RejectedRecord>>|
                        {
                            &&& #[trigger] spill_read(
                                *render,
                                all_spill,
                                rendered,
                                rest_spill,
                                false,
                            )
                            &&& rendered_entries(rendered) == with_ahead(spill_done, None)
                        };
                    assert(spill_read(
                        *render,
                        all_spill,
                        rendered,
                        <I as IteratorSpec>::remaining(&spill_now),
                        false,
                    ));
                }
                break;
            },
            Ok(Some(text)) => text,
        };
        let line = text.as_str();
        let ghost merged_before = merged;
        let ghost writes_before = writes;
        proof {
            let rendered = choose|rendered: Seq<Option<RejectedRecord>>|
                {
                    &&& #[trigger] spill_read(
                        *render,
                        all_spill,
                        rendered,
                        rest_spill,
                        before.next_spill is Some,
                    )
                    &&& rendered_entries(rendered) == with_ahead(
                        spill_done,
                        rejection_ahead(before.next_spill),
                    )
                };
            if before.turn() == MergeTurn::Artifact {
                let entry = artifact_ahead(before.next_artifact)->0;
                lemma_artifact_turn(
                    artifact_done,
                    spill_done,
                    merged,
                    entry,
                    artifact_ahead(merge.next_artifact),
                    rejection_ahead(before.next_spill),
                );
                lemma_artifact_pull(
                    all_artifact,
                    numbers,
                    rest_artifact,
                    merge.next_artifact,
                    <A as IteratorSpec>::remaining(&artifact_now),
                );
                artifact_done = artifact_done.push(entry);
                merged = merged.push(entry);
                numbers = with_pulled_line(numbers, merge.next_artifact);
                assert(spill_read(
                    *render,
                    all_spill,
                    rendered,
                    <I as IteratorSpec>::remaining(&spill_now),
                    merge.next_spill is Some,
                ));
            } else {
                let entry = rejection_ahead(before.next_spill)->0;
                lemma_spill_turn(
                    artifact_done,
                    spill_done,
                    merged,
                    artifact_ahead(before.next_artifact),
                    entry,
                    rejection_ahead(merge.next_spill),
                );
                let dropped = choose|dropped: int|
                    {
                        &&& #[trigger] spill_pull(
                            *render,
                            rest_spill,
                            dropped,
                            Ok::<_, MergeError<E>>(merge.next_spill),
                        )
                        &&& merge.next_spill is Some ==> <I as IteratorSpec>::remaining(&spill_now)
                            == rest_spill.skip(dropped + 1)
                    };
                lemma_spill_pull(
                    *render,
                    all_spill,
                    rendered,
                    rest_spill,
                    dropped,
                    merge.next_spill,
                    <I as IteratorSpec>::remaining(&spill_now),
                );
                spill_done = spill_done.push(entry);
                merged = merged.push(entry);
            }
            assert(merge.merged_lines@ =~= entry_lines(merged));
            assert(merged.last().1 == line@);
            assert(entry_texts(merged) =~= entry_texts(merged_before).push(line@));
        }
        let done = write.write_line(line);
        proof {
            writes = writes.push(LineWrite { line: line@, outcome: done });
            assert(write.handed() =~= handed_before + writes);
            assert(writes.drop_last() =~= writes_before);
            assert forall|i: int| 0 <= i < writes.len() implies (#[trigger] writes[i]).line
                == entry_texts(merged)[i] by {
                if i < writes_before.len() {
                    assert(writes[i] == writes_before[i]);
                }
            }
        }
        match done {
            Ok(_) => {
                proof {
                    assert(all_written(entry_texts(merged), writes)) by {
                        assert forall|i: int| 0 <= i < writes.len() implies (
                        #[trigger] writes[i]).outcome is Ok by {
                            if i < writes_before.len() {
                                assert(writes[i] == writes_before[i]);
                            }
                        }
                    }
                }
            },
            Err(error) => {
                proof {
                    let rendered = choose|rendered: Seq<Option<RejectedRecord>>|
                        {
                            &&& #[trigger] spill_read(
                                *render,
                                all_spill,
                                rendered,
                                <I as IteratorSpec>::remaining(&spill_now),
                                merge.next_spill is Some,
                            )
                            &&& rendered_entries(rendered) == with_ahead(
                                spill_done,
                                rejection_ahead(merge.next_spill),
                            )
                        };
                    let broken = BrokenMerge {
                        numbers,
                        rendered,
                        artifact_next: artifact_ahead(merge.next_artifact),
                        spill_next: rejection_ahead(merge.next_spill),
                        writes,
                    };
                    lemma_merge_underway(
                        all_artifact,
                        all_spill,
                        *render,
                        broken,
                        artifact_done,
                        spill_done,
                        merged,
                    );
                    assert(breaks_merge(
                        all_artifact,
                        all_spill,
                        *render,
                        broken,
                        MergeError::Io(error),
                    ));
                }
                return Err(MergeError::Io(error));
            },
        }
    }
    proof {
        let none = Seq::<ArtifactEntry>::empty();
        let rendered = choose|rendered: Seq<Option<RejectedRecord>>|
            {
                &&& #[trigger] spill_read(
                    *render,
                    all_spill,
                    rendered,
                    <I as IteratorSpec>::remaining(&spill_now),
                    false,
                )
                &&& rendered_entries(rendered) == with_ahead(spill_done, None)
            };
        assert(continues_with(none, artifact_ahead(merge.next_artifact)));
        assert(continues_with(none, rejection_ahead(merge.next_spill)));
        assert(merged_entries(artifact_done + none, spill_done + none) == merged + merged_entries(
            none,
            none,
        ));
        assert(artifact_done + none =~= artifact_done);
        assert(spill_done + none =~= spill_done);
        assert(merged + merged_entries(none, none) =~= merged);
        assert(all_artifact.take(numbers.len() as int) =~= all_artifact);
        assert(all_spill.take(rendered.len() as int) =~= all_spill);
        assert(artifact_lines(all_artifact, numbers));
        assert(spill_renders(*render, all_spill, rendered));
        lemma_merged_entries_name_the_merged_lines(
            artifact_entries(all_artifact, numbers),
            rendered_entries(rendered),
        );
        lemma_rendered_entries_name_the_lines(rendered);
        assert(entry_lines(artifact_entries(all_artifact, numbers)) =~= numbers);
        assert(merged_artifact(all_artifact, numbers, rendered) == merged);
        assert(all_written(
            entry_texts(merged_artifact(all_artifact, numbers, rendered)),
            writes,
        ));
    }
    Ok(merge.merged_lines)
}

proof fn lemma_prepended_entry(first: ArtifactEntry, rest: Seq<ArtifactEntry>)
    ensures
        (seq![first] + rest).to_multiset() == rest.to_multiset().insert(first),
{
    broadcast use vstd::seq_lib::group_to_multiset_ensures;

    vstd::seq_lib::lemma_multiset_commutative(seq![first], rest);
    assert(seq![first] =~= Seq::<ArtifactEntry>::empty().push(first));
    assert((seq![first] + rest).to_multiset() =~= rest.to_multiset().insert(first));
}

/// The merged artifact holds the lines of both sides as they are, and no other.
pub proof fn law_merge_keeps_every_line(artifact: Seq<ArtifactEntry>, spill: Seq<ArtifactEntry>)
    ensures
        merged_entries(artifact, spill).to_multiset() == artifact.to_multiset().add(
            spill.to_multiset(),
        ),
        merged_entries(artifact, spill).len() == artifact.len() + spill.len(),
    decreases artifact.len() + spill.len(),
{
    broadcast use vstd::seq_lib::group_to_multiset_ensures;

    let merged = merged_entries(artifact, spill);
    if artifact.len() == 0 && spill.len() == 0 {
        assert(merged.to_multiset() =~= artifact.to_multiset().add(spill.to_multiset()));
    } else if spill.len() == 0 || (artifact.len() > 0 && artifact[0].0 <= spill[0].0) {
        let rest = artifact.drop_first();
        law_merge_keeps_every_line(rest, spill);
        lemma_prepended_entry(artifact[0], merged_entries(rest, spill));
        lemma_prepended_entry(artifact[0], rest);
        assert(artifact =~= seq![artifact[0]] + rest);
        assert(merged.to_multiset() =~= artifact.to_multiset().add(spill.to_multiset()));
    } else {
        let rest = spill.drop_first();
        law_merge_keeps_every_line(artifact, rest);
        lemma_prepended_entry(spill[0], merged_entries(artifact, rest));
        lemma_prepended_entry(spill[0], rest);
        assert(spill =~= seq![spill[0]] + rest);
        assert(merged.to_multiset() =~= artifact.to_multiset().add(spill.to_multiset()));
    }
}

/// Whether these lines were read, and each names its source line.
pub open spec fn lines_name<E>(lines: Seq<Result<String, E>>, named: Seq<u64>) -> bool {
    &&& named.len() == lines.len()
    &&& forall|i: int|
        0 <= i < lines.len() ==> (#[trigger] lines[i] matches Ok(text) && names_line(
            text@,
            named[i],
        ))
}

/// Whether every record renders as a rejection at its own source line.
pub open spec fn renders_every_record<
    F: Fn(u64, serde_json::Map<String, Value>) -> Option<RejectedRecord>,
>(render: F) -> bool {
    forall|
        line: u64,
        record: serde_json::Map<String, Value>,
        rendered: Option<RejectedRecord>,
    | #[trigger]
        render.ensures((line, record), rendered) ==> (rendered matches Some(rejection)
            && rejection.line == line)
}

proof fn lemma_every_record_rendered<
    E,
    F: Fn(u64, serde_json::Map<String, Value>) -> Option<RejectedRecord>,
>(
    spill: Seq<Result<String, E>>,
    render: F,
    spilled: Seq<u64>,
    rendered: Seq<Option<RejectedRecord>>,
)
    requires
        lines_name(spill, spilled),
        renders_every_record(render),
        spill_renders(render, spill, rendered),
    ensures
        forall|j: int|
            0 <= j < rendered.len() ==> (#[trigger] rendered[j] matches Some(rejection)
                && rejection.line == spilled[j]),
        rendered_lines(rendered) == spilled,
        rendered_entries(rendered) == Seq::new(
            rendered.len(),
            |j: int| rejection_entry(rendered[j]->0),
        ),
    decreases rendered.len(),
{
    if rendered.len() == 0 {
        assert(rendered_lines(rendered) =~= spilled);
        assert(rendered_entries(rendered) =~= Seq::new(
            rendered.len(),
            |j: int| rejection_entry(rendered[j]->0),
        ));
    } else {
        let last = rendered.len() - 1;
        let fewer = spill.drop_last();
        assert forall|i: int| 0 <= i < fewer.len() implies (#[trigger] fewer[i] matches Ok(text)
            && names_line(text@, spilled.drop_last()[i])) by {
            assert(fewer[i] == spill[i]);
        }
        assert forall|i: int| 0 <= i < fewer.len() implies #[trigger] fewer[i] is Ok && may_render(
            render,
            fewer[i]->Ok_0@,
            rendered.drop_last()[i],
        ) by {
            assert(fewer[i] == spill[i]);
        }
        lemma_every_record_rendered(fewer, render, spilled.drop_last(), rendered.drop_last());
        let text = spill[last]->Ok_0@;
        assert(may_render(render, text, rendered[last]));
        let (line, record) = choose|line: u64, record: serde_json::Map<String, Value>|
            {
                &&& spilled_as(text, line, object_entries(record))
                &&& #[trigger] render.ensures((line, record), rendered[last])
            };
        assert(names_line(text, line));
        law_line_number_is_unique(text, line, spilled[last]);
        assert forall|j: int| 0 <= j < rendered.len() implies (#[trigger] rendered[j] matches Some(
            rejection,
        ) && rejection.line == spilled[j]) by {
            if j < last {
                assert(rendered.drop_last()[j] == rendered[j]);
            }
        }
        assert(rendered_lines(rendered) =~= spilled);
        assert(rendered_entries(rendered) =~= Seq::new(
            rendered.len(),
            |j: int| rejection_entry(rendered[j]->0),
        ));
    }
}

/// A merge that ends well interleaves the artifact and the spill by source line.
/// `recorded` are the lines that the sink was given, and `spilled` those that the
/// spill was, each in source order, as the lines that both handed out name them.
/// Where every spilled record renders as a rejection, the merged artifact has one
/// line for each of the two, in source order: the lines of the artifact are
/// unchanged, and those of the spill are the artifact lines of the rejections.
pub proof fn law_merge_interleaves_by_source_line<
    E,
    F: Fn(u64, serde_json::Map<String, Value>) -> Option<RejectedRecord>,
>(
    artifact: Seq<Result<String, E>>,
    spill: Seq<Result<String, E>>,
    render: F,
    recorded: Seq<u64>,
    spilled: Seq<u64>,
    numbers: Seq<u64>,
    rendered: Seq<Option<RejectedRecord>>,
)
    requires
        lines_name(artifact, recorded),
        lines_name(spill, spilled),
        in_line_order(recorded),
        in_line_order(spilled),
        renders_every_record(render),
        artifact_lines(artifact, numbers),
        spill_renders(render, spill, rendered),
    ensures
        ({
            let merged = merged_artifact(artifact, numbers, rendered);
            let unchanged = Seq::new(
                artifact.len(),
                |i: int| (recorded[i], artifact[i]->Ok_0@),
            );
            let rejections = Seq::new(
                spill.len(),
                |j: int| (spilled[j], rejection_entry(rendered[j]->0).1),
            );
            &&& numbers == recorded
            &&& rendered_lines(rendered) == spilled
            &&& entry_lines(merged) == merged_lines(recorded, spilled)
            &&& in_line_order(entry_lines(merged))
            &&& entry_lines(merged).to_multiset() == recorded.to_multiset().add(
                spilled.to_multiset(),
            )
            &&& merged.len() == recorded.len() + spilled.len()
            &&& merged.to_multiset() == unchanged.to_multiset().add(rejections.to_multiset())
        }),
{
    assert forall|i: int| 0 <= i < numbers.len() implies numbers[i] == recorded[i] by {
        assert(artifact[i] is Ok);
        law_line_number_is_unique(artifact[i]->Ok_0@, numbers[i], recorded[i]);
    }
    assert(numbers =~= recorded);
    lemma_every_record_rendered(spill, render, spilled, rendered);
    let entries = artifact_entries(artifact, numbers);
    let rejected = rendered_entries(rendered);
    lemma_merged_entries_name_the_merged_lines(entries, rejected);
    lemma_rendered_entries_name_the_lines(rendered);
    assert(entry_lines(entries) =~= numbers);
    law_merge_keeps_line_order(recorded, spilled);
    law_merge_keeps_every_line(entries, rejected);
    assert(entries =~= Seq::new(artifact.len(), |i: int| (recorded[i], artifact[i]->Ok_0@)));
    assert(rejected =~= Seq::new(
        spill.len(),
        |j: int| (spilled[j], rejection_entry(rendered[j]->0).1),
    ));
}

/// Whether these lines were read, and each holds a source line and a record.
pub open spec fn lines_hold_records<E>(lines: Seq<Result<String, E>>) -> bool {
    forall|j: int|
        0 <= j < lines.len() ==> (#[trigger] lines[j] matches Ok(text) && exists|
            line: u64,
            record: Seq<(Seq<char>, JsonTree)>,
        | #[trigger]
            spilled_as(text@, line, record))
}

/// A merge of lines that the sink and the spill handed out starts, and breaks off
/// only where a line cannot be written.
pub proof fn law_clean_merge_breaks_off_only_by_a_write<
    E,
    F: Fn(u64, serde_json::Map<String, Value>) -> Option<RejectedRecord>,
>(
    artifact: Seq<Result<String, E>>,
    spill: Seq<Result<String, E>>,
    render: F,
    recorded: Seq<u64>,
    broken: BrokenMerge<E>,
    error: MergeError<E>,
)
    requires
        lines_name(artifact, recorded),
        lines_hold_records(spill),
    ensures
        !merge_refused(artifact, spill, render, error),
        merge_underway(artifact, spill, render, broken) && breaks_merge(
            artifact,
            spill,
            render,
            broken,
            error,
        ) ==> broken.writes.len() > 0 && broken.writes.last().outcome is Err,
{
    assert(artifact.skip(0) =~= artifact);
    assert(spill.skip(0) =~= spill);
    lemma_clean_lines_read_on(artifact, spill, render, recorded, 0, 0, error);
    if merge_underway(artifact, spill, render, broken) {
        lemma_clean_lines_read_on(
            artifact,
            spill,
            render,
            recorded,
            broken.numbers.len() as int,
            broken.rendered.len() as int,
            error,
        );
    }
}

proof fn lemma_clean_lines_read_on<
    E,
    F: Fn(u64, serde_json::Map<String, Value>) -> Option<RejectedRecord>,
>(
    artifact: Seq<Result<String, E>>,
    spill: Seq<Result<String, E>>,
    render: F,
    recorded: Seq<u64>,
    read: int,
    rendered: int,
    error: MergeError<E>,
)
    requires
        lines_name(artifact, recorded),
        lines_hold_records(spill),
        0 <= read <= artifact.len(),
        0 <= rendered <= spill.len(),
    ensures
        !artifact_pull(artifact.skip(read), Err::<Option<(u64, String)>, _>(error)),
        forall|dropped: int|
            !#[trigger] spill_pull(
                render,
                spill.skip(rendered),
                dropped,
                Err::<Option<RejectedRecord>, _>(error),
            ),
{
    if read < artifact.len() {
        assert(artifact.skip(read)[0] == artifact[read]);
        assert(names_line(artifact[read]->Ok_0@, recorded[read]));
    }
    assert forall|dropped: int|
        !#[trigger] spill_pull(
            render,
            spill.skip(rendered),
            dropped,
            Err::<Option<RejectedRecord>, _>(error),
        ) by {
        if 0 <= dropped < spill.skip(rendered).len() {
            assert(spill.skip(rendered)[dropped] == spill[rendered + dropped]);
            assert(spill[rendered + dropped] is Ok);
        }
    }
}

/// An artifact line is the text of an object that tells the source line, the code,
/// the field and its source name or null, the message, and the record as it is. Where
/// the record can be read back, so can the line's source line.
pub proof fn law_artifact_line_tells_the_rejection(rejected: RejectedRecord, text: String)
    requires
        call_ensures(artifact_line, (&rejected,), text),
    ensures
        exists|tree: JsonTree|
            {
                &&& text@ == #[trigger] rendered_json(tree)
                &&& tree matches JsonTree::Object(entries) && entries.len() == 6 && entries[0].0
                    == "line"@ && entries[1].0 == "code"@ && entries[2].0 == "field"@
                    && entries[3].0 == "source_field"@ && entries[4].0 == "message"@
                    && entries[5].0 == "record"@
                &&& shows(tree, "line"@, JsonTree::Number(decimal(rejected.line as nat)))
                &&& shows(tree, "code"@, JsonTree::Text(rejected.code@))
                &&& rejected.field matches Some(field) ==> shows(
                    tree,
                    "field"@,
                    JsonTree::Text(field@),
                )
                &&& rejected.field is None ==> shows(tree, "field"@, JsonTree::Null)
                &&& rejected.source_field matches Some(field) ==> shows(
                    tree,
                    "source_field"@,
                    JsonTree::Text(field@),
                )
                &&& rejected.source_field is None ==> shows(tree, "source_field"@, JsonTree::Null)
                &&& shows(tree, "message"@, JsonTree::Text(rejected.message@))
                &&& shows(tree, "record"@, json_tree(rejected.record))
            },
        nests_within(json_tree(rejected.record), 126) ==> (parsed_json(text@) matches Ok(
            JsonTree::Object(entries),
        ) && entry_value(entries, "line"@) == Some(
            JsonTree::Number(decimal(rejected.line as nat)),
        )),
{
    let entries = rejection_entries(rejected@);
    let tree = rejection_tree(rejected@);
    lemma_rejection_tree(rejected@);
    assert(keys_differ(entries)) by {
        reveal_strlit("line");
        reveal_strlit("code");
        reveal_strlit("field");
        reveal_strlit("source_field");
        reveal_strlit("message");
        reveal_strlit("record");
        assert("line"@[0] == 'l' && "code"@[0] == 'c');
        assert("line"@.len() == 4 && "code"@.len() == 4 && "field"@.len() == 5
            && "source_field"@.len() == 12 && "message"@.len() == 7 && "record"@.len() == 6);
        assert forall|i: int, j: int| 0 <= i < j < entries.len() implies (
        #[trigger] entries[i]).0 != (#[trigger] entries[j]).0 by {
            if i == 0 && j == 1 {
                assert(entries[i].0[0] != entries[j].0[0]);
            } else {
                assert(entries[i].0.len() != entries[j].0.len());
            }
        }
    }
    lemma_object_shows_its_entries(entries);
    assert(entries[0].0 == "line"@ && entries[1].0 == "code"@ && entries[2].0 == "field"@
        && entries[3].0 == "source_field"@ && entries[4].0 == "message"@ && entries[5].0
        == "record"@);
    assert(text@ == rendered_json(tree));
}

/// A new sink writes below the directory of the artifacts, under the names of the
/// artifact, of the spill and of the merged artifact, and has rejected nothing.
pub proof fn law_sink_starts_empty_in_its_directory<E>(
    artifact_dir: &str,
    sink: RejectionSink<E>,
    artifact: &str,
    spill: &str,
    merged: &str,
    count: u64,
)
    requires
        call_ensures(RejectionSink::<E>::new, (artifact_dir,), sink),
        call_ensures(RejectionSink::<E>::artifact_path, (&sink,), artifact),
        call_ensures(RejectionSink::<E>::spill_path, (&sink,), spill),
        call_ensures(RejectionSink::<E>::merged_path, (&sink,), merged),
        call_ensures(RejectionSink::<E>::count, (&sink,), count),
    ensures
        artifact@ == joined_path(artifact_dir@, "rejected-records.jsonl"@),
        spill@ == joined_path(artifact_dir@, ".rejected-records.spill"@),
        merged@ == joined_path(artifact_dir@, ".rejected-records.merged"@),
        count == 0,
        sink@.lines.len() == 0,
        sink@.io_error is None,
{
}

/// A sink counts every rejection, in order, and hands out its artifact line exactly
/// as long as nothing failed. The first failure stays until it is taken, and only
/// then.
pub proof fn law_sink_counts_every_rejection<E>(
    recording: &mut RejectionSink<E>,
    rejected: RejectedRecord,
    line: Option<String>,
    absorbing: &mut RejectionSink<E>,
    error: E,
    taking: &mut RejectionSink<E>,
    taken: Option<E>,
    counted: RejectionSink<E>,
    count: u64,
    lines: Vec<u64>,
)
    requires
        call_ensures(RejectionSink::<E>::record, (recording, &rejected), line),
        call_ensures(RejectionSink::<E>::absorb, (absorbing, error), ()),
        call_ensures(RejectionSink::<E>::take_io_error, (taking,), taken),
        call_ensures(RejectionSink::<E>::count, (&counted,), count),
        call_ensures(RejectionSink::<E>::rejected_lines, (&counted,), &lines),
    ensures
        final(recording)@.lines == old(recording)@.lines.push(rejected.line),
        final(recording)@.io_error == old(recording)@.io_error,
        line is Some <==> old(recording)@.io_error is None,
        line matches Some(text) ==> text@ == rendered_json(rejection_tree(rejected@)),
        final(absorbing)@.lines == old(absorbing)@.lines,
        old(absorbing)@.io_error matches Some(first) ==> final(absorbing)@.io_error == Some(first),
        old(absorbing)@.io_error is None ==> final(absorbing)@.io_error == Some(error),
        taken == old(taking)@.io_error,
        final(taking)@.io_error is None && final(taking)@.lines == old(taking)@.lines,
        count == counted@.lines.len(),
        lines@ == counted@.lines,
{
}

/// A spill is merged exactly where it holds something and nothing failed, on its side
/// or the sink's. A merge that ended well replaces the lines; one that failed, and a
/// spill that is dropped, leave them, and a failure is kept unless one was before.
pub proof fn law_spill_is_merged_unless_something_failed<E>(
    fresh: RejectionSink<E>,
    empty: ValidationSpill<E>,
    beginning: &mut RejectionSink<E>,
    spill: ValidationSpill<E>,
    merges: bool,
    finishing: &mut RejectionSink<E>,
    merged: Result<Vec<u64>, E>,
    dropping: &mut RejectionSink<E>,
    dropped: ValidationSpill<E>,
)
    requires
        call_ensures(RejectionSink::<E>::spill, (&fresh,), empty),
        call_ensures(RejectionSink::<E>::begin_merge, (beginning, spill), merges),
        call_ensures(RejectionSink::<E>::finish_merge, (finishing, merged), ()),
        call_ensures(RejectionSink::<E>::discard, (dropping, dropped), ()),
    ensures
        empty.entries == 0 && empty.io_error is None,
        merges <==> spill.entries > 0 && spill.io_error is None && old(beginning)@.io_error is None,
        final(beginning)@.lines == old(beginning)@.lines,
        final(beginning)@.io_error == (if old(beginning)@.io_error is Some {
            old(beginning)@.io_error
        } else {
            spill.io_error
        }),
        merged matches Ok(lines) ==> final(finishing)@.lines == lines@
            && final(finishing)@.io_error == old(finishing)@.io_error,
        merged matches Err(error) ==> final(finishing)@.lines == old(finishing)@.lines
            && final(finishing)@.io_error == (if old(finishing)@.io_error is Some {
            old(finishing)@.io_error
        } else {
            Some(error)
        }),
        final(dropping)@.lines == old(dropping)@.lines,
        final(dropping)@.io_error == (if old(dropping)@.io_error is Some {
            old(dropping)@.io_error
        } else {
            dropped.io_error
        }),
{
}

/// A spill counts every record, and hands out its line, with the source line and the
/// record as it is, exactly as long as nothing failed. It keeps its first failure.
pub proof fn law_spill_counts_every_record<E>(
    recording: &mut ValidationSpill<E>,
    line: u64,
    object: serde_json::Map<String, Value>,
    text: Option<String>,
    absorbing: &mut ValidationSpill<E>,
    error: E,
)
    requires
        call_ensures(ValidationSpill::<E>::record, (recording, line, &object), text),
        call_ensures(ValidationSpill::<E>::absorb, (absorbing, error), ()),
    ensures
        final(recording).entries == old(recording).entries + 1,
        final(recording).io_error == old(recording).io_error,
        text is Some <==> old(recording).io_error is None,
        text matches Some(text) ==> exists|tree: JsonTree|
            {
                &&& text@ == #[trigger] rendered_json(tree)
                &&& tree matches JsonTree::Object(entries) && entries.len() == 2 && entries[0].0
                    == "line"@ && entries[1].0 == "record"@
                &&& shows(tree, "line"@, JsonTree::Number(decimal(line as nat)))
                &&& shows(tree, "record"@, JsonTree::Object(object_entries(object)))
            },
        final(absorbing).entries == old(absorbing).entries,
        final(absorbing).io_error == (if old(absorbing).io_error is Some {
            old(absorbing).io_error
        } else {
            Some(error)
        }),
{
    lemma_spill_tree(line, object_entries(object));
    if let Some(text) = text {
        let tree = spill_tree(line, object_entries(object));
        assert(text@ == rendered_json(tree));
    }
}

/// An invalid line is told by the side it stands on; a failed read has no such text.
pub proof fn law_invalid_line_tells_its_side<E>(
    error: MergeError<E>,
    text: Option<&'static str>,
)
    requires
        call_ensures(MergeError::<E>::invalid_line, (&error,), text),
    ensures
        error is Io <==> text is None,
        error is InvalidArtifactLine ==> (text matches Some(told) && told@
            == "rejected-records artifact line without a line number"@),
        error is InvalidSpillLine ==> (text matches Some(told) && told@
            == "rejected-records spill line without a line number and record"@),
{
}

/// An entry names the source line that stands under `line` as a number, and no other;
/// an entry without one names none. An artifact line is read as its object is.
pub proof fn law_entry_names_its_line(
    object: serde_json::Map<String, Value>,
    entry: Option<u64>,
    text: &str,
    read: Option<u64>,
)
    requires
        call_ensures(entry_line, (&object,), entry),
        call_ensures(artifact_line_number, (text,), read),
    ensures
        forall|n: u64|
            entry == Some(n) <==> entry_value(object_entries(object), "line"@) == Some(
                JsonTree::Number(#[trigger] decimal(n as nat)),
            ),
        forall|n: u64|
            read == Some(n) <==> (parsed_json(text@) matches Ok(JsonTree::Object(entries))
                && entry_value(entries, "line"@) == Some(
                JsonTree::Number(#[trigger] decimal(n as nat)),
            )),
{
    assert forall|n: u64|
        entry == Some(n) <==> entry_value(object_entries(object), "line"@) == Some(
            JsonTree::Number(#[trigger] decimal(n as nat)),
        ) by {
        assert(number_tree(n as nat) == JsonTree::Number(decimal(n as nat)));
        if let Some(line) = entry {
            if entry_value(object_entries(object), "line"@) == Some(number_tree(n as nat)) {
                law_decimal_is_injective(line as nat, n as nat);
            }
        }
    }
    assert forall|n: u64|
        read == Some(n) <==> (parsed_json(text@) matches Ok(JsonTree::Object(entries))
            && entry_value(entries, "line"@) == Some(
            JsonTree::Number(#[trigger] decimal(n as nat)),
        )) by {
        assert(number_tree(n as nat) == JsonTree::Number(decimal(n as nat)));
        if names_line(text@, n) {
            assert(names_some_line(text@));
            law_line_number_is_unique(text@, read->0, n);
        }
    }
}

/// A spill line gives back the source line under `line` and the object under
/// `record`, and nothing where either is missing.
pub proof fn law_spill_line_gives_back_its_record(
    text: &str,
    entry: Option<(u64, serde_json::Map<String, Value>)>,
    object: serde_json::Map<String, Value>,
    held: Option<(u64, serde_json::Map<String, Value>)>,
)
    requires
        call_ensures(spill_entry, (text,), entry),
        call_ensures(entry_record, (&object,), held),
    ensures
        entry matches Some((line, record)) ==> (parsed_json(text@) matches Ok(
            JsonTree::Object(entries),
        ) && entry_value(entries, "line"@) == Some(JsonTree::Number(decimal(line as nat)))
            && entry_value(entries, "record"@) == Some(
            JsonTree::Object(object_entries(record)),
        )),
        entry is None ==> forall|n: u64|
            !(parsed_json(text@) matches Ok(JsonTree::Object(entries)) && entry_value(
                entries,
                "line"@,
            ) == Some(JsonTree::Number(#[trigger] decimal(n as nat))) && (entry_value(
                entries,
                "record"@,
            ) matches Some(JsonTree::Object(_)))),
        held matches Some((line, record)) ==> entry_value(object_entries(object), "line"@) == Some(
            JsonTree::Number(decimal(line as nat)),
        ) && entry_value(object_entries(object), "record"@) == Some(
            JsonTree::Object(object_entries(record)),
        ),
        held is None ==> forall|n: u64|
            !(entry_value(object_entries(object), "line"@) == Some(
                JsonTree::Number(#[trigger] decimal(n as nat)),
            ) && (entry_value(object_entries(object), "record"@) matches Some(
                JsonTree::Object(_),
            ))),
{
    if entry is None {
        assert forall|n: u64|
            !(parsed_json(text@) matches Ok(JsonTree::Object(entries)) && entry_value(
                entries,
                "line"@,
            ) == Some(JsonTree::Number(#[trigger] decimal(n as nat))) && (entry_value(
                entries,
                "record"@,
            ) matches Some(JsonTree::Object(_)))) by {
            let entries = parsed_json(text@)->Ok_0->Object_0;
            let record = entry_value(entries, "record"@)->0->Object_0;
            if spilled_as(text@, n, record) {
                assert(spills_some_record(text@));
            }
        }
    }
    if held is None {
        assert forall|n: u64|
            !(entry_value(object_entries(object), "line"@) == Some(
                JsonTree::Number(#[trigger] decimal(n as nat)),
            ) && (entry_value(object_entries(object), "record"@) matches Some(
                JsonTree::Object(_),
            ))) by {
            let record = entry_value(object_entries(object), "record"@)->0->Object_0;
            if holds_record(object_entries(object), n, record) {
                assert(holds_some_record(object_entries(object)));
            }
        }
    }
}

/// The next artifact line is the first that is left, with the source line it names;
/// there is none exactly at the end, and a line that cannot be read ends the merge
/// with its error.
pub proof fn law_artifact_lines_are_read_in_order<E, I: Iterator<Item = Result<String, E>>>(
    lines: &mut I,
    pulled: Result<Option<(u64, String)>, MergeError<E>>,
)
    requires
        call_ensures(next_artifact_line::<E, I>, (lines,), pulled),
    ensures
        ({
            let left = <I as IteratorSpec>::remaining(old(lines));
            &&& (pulled matches Ok(None)) <==> left.len() == 0
            &&& pulled matches Ok(Some((line, text))) ==> {
                &&& left.len() > 0 && left[0] == Ok::<String, E>(text)
                &&& parsed_json(text@) matches Ok(JsonTree::Object(entries))
                &&& entry_value(entries, "line"@) == Some(JsonTree::Number(decimal(line as nat)))
                &&& <I as IteratorSpec>::remaining(final(lines)) == left.drop_first()
            }
            &&& pulled matches Err(MergeError::Io(error)) ==> left.len() > 0 && left[0] == Err::<
                String,
                E,
            >(error)
            &&& left.len() > 0 && left[0] is Err ==> (pulled matches Err(MergeError::Io(_)))
            &&& !(pulled matches Err(MergeError::InvalidSpillLine))
            &&& pulled matches Err(MergeError::InvalidArtifactLine) ==> {
                &&& left.len() > 0 && left[0] is Ok
                &&& forall|n: u64|
                    !(parsed_json(left[0]->Ok_0@) matches Ok(JsonTree::Object(entries))
                        && entry_value(entries, "line"@) == Some(
                        JsonTree::Number(#[trigger] decimal(n as nat)),
                    ))
            }
        }),
{
    let left = <I as IteratorSpec>::remaining(old(lines));
    if pulled == Err::<Option<(u64, String)>, MergeError<E>>(MergeError::InvalidArtifactLine) {
        assert forall|n: u64|
            !(parsed_json(left[0]->Ok_0@) matches Ok(JsonTree::Object(entries)) && entry_value(
                entries,
                "line"@,
            ) == Some(JsonTree::Number(#[trigger] decimal(n as nat)))) by {
            assert(!names_line(left[0]->Ok_0@, n));
        }
    }
}

/// The next spilled rejection comes from the first line left whose record still is
/// one: the line's own source line and record were rendered, those in front of it
/// rendered as nothing, and those behind it are left. Without one, every line left
/// rendered as nothing.
pub proof fn law_spilled_rejections_are_read_in_order<
    E,
    I: Iterator<Item = Result<String, E>>,
    F: Fn(u64, serde_json::Map<String, Value>) -> Option<RejectedRecord>,
>(lines: &mut I, render: F, pulled: Result<Option<RejectedRecord>, MergeError<E>>)
    requires
        call_ensures(next_spill_rejection::<E, I, F>, (lines, &render), pulled),
    ensures
        ({
            let left = <I as IteratorSpec>::remaining(old(lines));
            exists|dropped: int|
                {
                    &&& 0 <= dropped <= left.len()
                    &&& #[trigger] left.take(dropped).len() == dropped
                    &&& forall|i: int|
                        0 <= i < dropped ==> {
                            &&& #[trigger] left[i] is Ok
                            &&& exists|line: u64, record: serde_json::Map<String, Value>|
                                {
                                    &&& parsed_json(left[i]->Ok_0@) matches Ok(
                                        JsonTree::Object(entries),
                                    )
                                    &&& entry_value(entries, "line"@) == Some(
                                        JsonTree::Number(decimal(line as nat)),
                                    )
                                    &&& entry_value(entries, "record"@) == Some(
                                        JsonTree::Object(object_entries(record)),
                                    )
                                    &&& #[trigger] render.ensures((line, record), None)
                                }
                        }
                    &&& (pulled matches Ok(None)) <==> dropped == left.len()
                    &&& pulled matches Ok(Some(rejection)) ==> {
                        &&& left[dropped] is Ok
                        &&& <I as IteratorSpec>::remaining(final(lines)) == left.skip(dropped + 1)
                        &&& exists|line: u64, record: serde_json::Map<String, Value>|
                            {
                                &&& parsed_json(left[dropped]->Ok_0@) matches Ok(
                                    JsonTree::Object(entries),
                                )
                                &&& entry_value(entries, "line"@) == Some(
                                    JsonTree::Number(decimal(line as nat)),
                                )
                                &&& entry_value(entries, "record"@) == Some(
                                    JsonTree::Object(object_entries(record)),
                                )
                                &&& #[trigger] render.ensures((line, record), Some(rejection))
                            }
                    }
                    &&& pulled matches Err(MergeError::Io(error)) ==> left[dropped] == Err::<
                        String,
                        E,
                    >(error)
                    &&& pulled matches Err(error) ==> !(error is InvalidArtifactLine)
                    &&& pulled matches Err(MergeError::InvalidSpillLine) ==> {
                        &&& left[dropped] is Ok
                        &&& forall|n: u64|
                            !(parsed_json(left[dropped]->Ok_0@) matches Ok(
                                JsonTree::Object(entries),
                            ) && entry_value(entries, "line"@) == Some(
                                JsonTree::Number(#[trigger] decimal(n as nat)),
                            ) && (entry_value(entries, "record"@) matches Some(
                                JsonTree::Object(_),
                            )))
                    }
                }
        }),
{
    let left = <I as IteratorSpec>::remaining(old(lines));
    let dropped = choose|dropped: int|
        {
            &&& #[trigger] spill_pull(render, left, dropped, pulled)
            &&& pulled matches Ok(Some(_)) ==> <I as IteratorSpec>::remaining(final(lines))
                == left.skip(dropped + 1)
        };
    assert forall|i: int| 0 <= i < dropped implies ({
        &&& #[trigger] left[i] is Ok
        &&& exists|line: u64, record: serde_json::Map<String, Value>|
            {
                &&& parsed_json(left[i]->Ok_0@) matches Ok(JsonTree::Object(entries))
                &&& entry_value(entries, "line"@) == Some(
                    JsonTree::Number(decimal(line as nat)),
                )
                &&& entry_value(entries, "record"@) == Some(
                    JsonTree::Object(object_entries(record)),
                )
                &&& #[trigger] render.ensures((line, record), None)
            }
    }) by {
        assert(may_render(render, left[i]->Ok_0@, None));
    }
    if let Ok(Some(rejection)) = pulled {
        assert(may_render(render, left[dropped]->Ok_0@, pulled->Ok_0));
    }
    if pulled == Err::<Option<RejectedRecord>, MergeError<E>>(MergeError::InvalidSpillLine) {
        assert forall|n: u64|
            !(parsed_json(left[dropped]->Ok_0@) matches Ok(JsonTree::Object(entries))
                && entry_value(entries, "line"@) == Some(
                JsonTree::Number(#[trigger] decimal(n as nat)),
            ) && (entry_value(entries, "record"@) matches Some(JsonTree::Object(_)))) by {
            let entries = parsed_json(left[dropped]->Ok_0@)->Ok_0->Object_0;
            let record = entry_value(entries, "record"@)->0->Object_0;
            assert(!spilled_as(left[dropped]->Ok_0@, n, record));
        }
    }
    assert(left.take(dropped).len() == dropped);
}

/// A merge hands out the side whose source line is lower, the artifact's where both
/// are the same, and leaves the other side as it was. It ends exactly where both
/// sides have.
pub proof fn law_merge_takes_the_lower_line_first<
    E,
    A: Iterator<Item = Result<String, E>>,
    I: Iterator<Item = Result<String, E>>,
    F: Fn(u64, serde_json::Map<String, Value>) -> Option<RejectedRecord>,
>(
    merge: &mut SpillMerge,
    artifact: &mut A,
    spill: &mut I,
    render: F,
    line: Result<Option<String>, MergeError<E>>,
)
    requires
        call_ensures(
            SpillMerge::next_line::<E, A, I, F>,
            (merge, artifact, spill, &render),
            line,
        ),
    ensures
        line matches Ok(text) ==> {
            let a = old(merge).next_artifact;
            let s = old(merge).next_spill;
            &&& text is None <==> a is None && s is None
            &&& a matches Some((at, kept)) ==> ((s is None || at <= s->0.line) ==> {
                &&& text == Some(kept)
                &&& final(merge).merged_lines@ == old(merge).merged_lines@.push(at)
                &&& final(merge).next_spill == s && *final(spill) == *old(spill)
                &&& final(merge).next_artifact is None <==> <A as IteratorSpec>::remaining(
                    old(artifact),
                ).len() == 0
                &&& final(merge).next_artifact matches Some((_, next)) ==> <A as IteratorSpec>::remaining(
                    old(artifact),
                )[0] == Ok::<String, E>(next)
            })
            &&& s matches Some(rejection) ==> ((a matches Some((at, _)) ==> at > rejection.line)
                ==> {
                &&& text is Some && text->0@ == rendered_json(rejection_tree(rejection@))
                &&& final(merge).merged_lines@ == old(merge).merged_lines@.push(rejection.line)
                &&& final(merge).next_artifact == a && *final(artifact) == *old(artifact)
            })
            &&& a is None && s is None ==> *final(merge) == *old(merge)
        },
{
}

/// Merging writes every line of the artifact as it is and the artifact line of every
/// spilled rejection, in source order, and gives back their source lines. Both sides
/// are taken to be in source order, and every spilled record to be a rejection.
pub proof fn law_merged_file_holds_both_sides_in_order<
    E,
    A: Iterator<Item = Result<String, E>>,
    I: Iterator<Item = Result<String, E>>,
    F: Fn(u64, serde_json::Map<String, Value>) -> Option<RejectedRecord>,
    W: LineWriter<E>,
>(
    artifact: A,
    spill: I,
    render: F,
    write: &mut W,
    recorded: Seq<u64>,
    spilled: Seq<u64>,
    lines: Vec<u64>,
)
    requires
        call_ensures(
            merge_spill_file::<E, A, I, F, W>,
            (artifact, spill, &render, write),
            Ok::<Vec<u64>, MergeError<E>>(lines),
        ),
        lines_name(artifact.remaining(), recorded),
        lines_name(spill.remaining(), spilled),
        in_line_order(recorded),
        in_line_order(spilled),
        renders_every_record(render),
    ensures
        lines@.len() == recorded.len() + spilled.len(),
        forall|i: int, j: int|
            0 <= i < j < lines@.len() ==> #[trigger] lines@[i] <= #[trigger] lines@[j],
        lines@.to_multiset() == recorded.to_multiset().add(spilled.to_multiset()),
        exists|merged: Seq<(u64, Seq<char>)>, rejections: Seq<RejectedRecord>|
            {
                let unchanged = Seq::new(
                    recorded.len(),
                    |i: int| (recorded[i], artifact.remaining()[i]->Ok_0@),
                );
                let added = Seq::new(
                    rejections.len(),
                    |j: int| (rejections[j].line, rendered_json(rejection_tree(rejections[j]@))),
                );
                let start = old(write).handed().len();
                &&& #[trigger] merged.len() == lines@.len()
                &&& #[trigger] rejections.len() == spilled.len()
                &&& forall|j: int|
                    0 <= j < rejections.len() ==> (#[trigger] rejections[j]).line == spilled[j]
                &&& merged.to_multiset() == unchanged.to_multiset().add(added.to_multiset())
                &&& final(write).handed().len() == start + merged.len()
                &&& final(write).handed().take(start as int) == old(write).handed()
                &&& forall|i: int|
                    0 <= i < merged.len() ==> (#[trigger] merged[i]).0 == lines@[i]
                        && final(write).handed()[start + i].line == merged[i].1
                        && final(write).handed()[start + i].outcome is Ok
            },
{
    let all_artifact = artifact.remaining();
    let all_spill = spill.remaining();
    let (numbers, rendered, writes) = choose|
        numbers: Seq<u64>,
        rendered: Seq<Option<RejectedRecord>>,
        writes: Seq<LineWrite<E>>,
    |
        {
            &&& #[trigger] artifact_lines(all_artifact, numbers)
            &&& #[trigger] spill_renders(render, all_spill, rendered)
            &&& lines@ == merged_lines(numbers, rendered_lines(rendered))
            &&& lines@ == entry_lines(merged_artifact(all_artifact, numbers, rendered))
            &&& #[trigger] all_written(
                entry_texts(merged_artifact(all_artifact, numbers, rendered)),
                writes,
            )
            &&& final(write).handed() == old(write).handed() + writes
        };
    law_merge_interleaves_by_source_line(
        all_artifact,
        all_spill,
        render,
        recorded,
        spilled,
        numbers,
        rendered,
    );
    lemma_every_record_rendered(all_spill, render, spilled, rendered);
    let merged = merged_artifact(all_artifact, numbers, rendered);
    let rejections = Seq::new(rendered.len(), |j: int| rendered[j]->0);
    assert forall|j: int| 0 <= j < rejections.len() implies (#[trigger] rejections[j]).line
        == spilled[j] by {
        assert(rendered[j] is Some);
    }
    let unchanged = Seq::new(
        recorded.len(),
        |i: int| (recorded[i], artifact.remaining()[i]->Ok_0@),
    );
    let added = Seq::new(
        rejections.len(),
        |j: int| (rejections[j].line, rendered_json(rejection_tree(rejections[j]@))),
    );
    assert(unchanged =~= Seq::new(
        all_artifact.len(),
        |i: int| (recorded[i], all_artifact[i]->Ok_0@),
    ));
    assert(added =~= Seq::new(
        all_spill.len(),
        |j: int| (spilled[j], rejection_entry(rendered[j]->0).1),
    ));
    let start = old(write).handed().len() as int;
    assert(final(write).handed().take(start) =~= old(write).handed());
    assert forall|i: int| 0 <= i < merged.len() implies (#[trigger] merged[i]).0 == lines@[i]
        && final(write).handed()[start + i].line == merged[i].1
        && final(write).handed()[start + i].outcome is Ok by {
        assert(final(write).handed()[start + i] == writes[i]);
        assert(entry_lines(merged)[i] == merged[i].0);
        assert(entry_texts(merged)[i] == merged[i].1);
    }
    assert(merged.len() == lines@.len() && rejections.len() == spilled.len());
}

} // verus!
