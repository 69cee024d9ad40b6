//! The local file source: which format a file has, the first read of a CSV or
//! JSONL file, and the items its second read is made of.
use crate::failure::{bare_failure, failing, ExecutionFailure, FailureView, LoadFailure};
use crate::json::{object_entries, object_keys, JsonTree};
use crate::source::{
    csv_item, csv_item_is, jsonl_line_is, jsonl_line_record, CsvItem, CsvReadError, JsonRecord,
    JsonlLine, TextRecord,
};
use crate::stream::{changed, source_changed, SourceItem};
use crate::text::{
    contains_text, debug_notation, debug_text, decimal, decimal_text, file_extension,
    path_extension, same_text, texts,
};
use vstd::prelude::*;
use vstd::string::*;

verus! {

/// The formats a local file can have.
#[derive(Clone, Copy, Debug, PartialEq, Eq, Structural)]
pub enum SourceFormat {
    Csv,
    Jsonl,
}

/// The name of a format.
pub open spec fn format_name(format: SourceFormat) -> &'static str {
    match format {
        SourceFormat::Csv => "csv",
        SourceFormat::Jsonl => "jsonl",
    }
}

/// A local file as a source, with the format where the definition names one.
#[derive(Debug)]
pub struct LocalFileSource {
    pub path: String,
    pub format: Option<String>,
}

/// The format a definition means: the named one, else the extension of the
/// path, else nothing.
pub open spec fn meant_format(path: Seq<char>, format: Option<Seq<char>>) -> Seq<char> {
    match format {
        Some(format) => format,
        None => match file_extension(path) {
            Some(extension) => extension,
            None => seq![],
        },
    }
}

/// The format a definition means, without touching the file.
pub fn resolved_source_format(path: &str, format: Option<&str>) -> (resolved: String)
    ensures
        resolved@ == meant_format(
            path@,
            match format {
                Some(format) => Some(format@),
                None => None,
            },
        ),
{
    match format {
        Some(format) => format.to_owned(),
        None => match path_extension(path) {
            Some(extension) => extension,
            None => {
                let empty = String::new();
                assert(empty@ =~= seq![]);
                empty
            },
        },
    }
}

impl LocalFileSource {
    /// The format this source is meant to have.
    pub open spec fn format_view(self) -> Seq<char> {
        meant_format(
            self.path@,
            match self.format {
                Some(format) => Some(format@),
                None => None,
            },
        )
    }

    /// The format this source is meant to have.
    pub fn resolved_format(&self) -> (resolved: String)
        ensures
            resolved@ == self.format_view(),
    {
        match &self.format {
            Some(format) => resolved_source_format(self.path.as_str(), Some(format.as_str())),
            None => resolved_source_format(self.path.as_str(), None),
        }
    }

    /// The format to read this source in; any other format is refused before
    /// the file is opened.
    pub fn read_format(&self) -> (format: Result<SourceFormat, LoadFailure>)
        ensures
            match format {
                Ok(format) => format_name(format)@ == self.format_view(),
                Err(failure) => {
                    &&& forall|format: SourceFormat|
                        (#[trigger] format_name(format))@ != self.format_view()
                    &&& failure@ == failing(
                        "unsupported_source_format"@,
                        "only local CSV and JSONL sources are supported by this load path"@,
                    )
                },
            },
    {
        let resolved = self.resolved_format();
        if same_text(resolved.as_str(), "csv") {
            Ok(SourceFormat::Csv)
        } else if same_text(resolved.as_str(), "jsonl") {
            Ok(SourceFormat::Jsonl)
        } else {
            Err(
                LoadFailure::new(
                    "unsupported_source_format",
                    "only local CSV and JSONL sources are supported by this load path".to_owned(),
                ),
            )
        }
    }
}

/// The failure of opening or inspecting a source file.
pub fn source_file_failure(action: &str, label: &str, path: &str, error: &str) -> (failure:
    LoadFailure)
    ensures
        failure@ == failing(
            "source_read_failed"@,
            "failed to "@ + action@ + " "@ + label@ + " source "@ + path@ + ": "@ + error@,
        ),
{
    LoadFailure::new(
        "source_read_failed",
        "failed to ".to_owned().concat(action).concat(" ").concat(label).concat(" source ").concat(
            path,
        ).concat(": ").concat(error),
    )
}

/// The failure of reading on in a JSONL file.
pub open spec fn jsonl_read_failed(path: Seq<char>, after: nat, error: Seq<char>) -> FailureView {
    failing(
        "source_read_failed"@,
        "failed to read JSONL source "@ + path + " after line "@ + decimal(after) + ": "@ + error,
    )
}

/// The failure of reading on in a JSONL file after a number of lines.
pub fn jsonl_read_failure(path: &str, after_line: u64, error: &str) -> (failure: LoadFailure)
    ensures
        failure@ == jsonl_read_failed(path@, after_line as nat, error@),
{
    LoadFailure::new(
        "source_read_failed",
        "failed to read JSONL source ".to_owned().concat(path).concat(" after line ").concat(
            decimal_text(after_line).as_str(),
        ).concat(": ").concat(error),
    )
}

/// Holds the header of a CSV file, or the reader's error, to what a source
/// needs: it parses, and it names at least one field.
pub fn read_csv_header(header: Result<Vec<String>, String>, path: &str) -> (names: Result<
    Vec<String>,
    LoadFailure,
>)
    ensures
        match header {
            Err(error) => names matches Err(failure) && failure@ == failing(
                "malformed_csv"@,
                "malformed CSV syntax in "@ + path@ + ": "@ + error@,
            ),
            Ok(fields) => if fields@.len() == 0 {
                names matches Err(failure) && failure@ == failing(
                    "malformed_csv"@,
                    "CSV source "@ + path@ + " must include at least one header field"@,
                )
            } else {
                names == Ok::<Vec<String>, LoadFailure>(fields)
            },
        },
{
    match header {
        Err(error) => Err(
            LoadFailure::new(
                "malformed_csv",
                "malformed CSV syntax in ".to_owned().concat(path).concat(": ").concat(
                    error.as_str(),
                ),
            ),
        ),
        Ok(fields) => if fields.len() == 0 {
            Err(
                LoadFailure::new(
                    "malformed_csv",
                    "CSV source ".to_owned().concat(path).concat(
                        " must include at least one header field",
                    ),
                ),
            )
        } else {
            Ok(fields)
        },
    }
}

fn same_texts(a: &Vec<String>, b: &Vec<String>) -> (same: bool)
    ensures
        same == (texts(a@) == texts(b@)),
{
    if a.len() != b.len() {
        assert(texts(a@).len() != texts(b@).len());
        return false;
    }
    let mut i: usize = 0;
    while i < a.len()
        invariant
            i <= a.len(),
            a.len() == b.len(),
            forall|j: int| 0 <= j < i ==> texts(a@)[j] == texts(b@)[j],
        decreases a.len() - i,
    {
        if !same_text(a[i].as_str(), b[i].as_str()) {
            proof {
                assert(texts(a@)[i as int] != texts(b@)[i as int]);
            }
            return false;
        }
        i = i + 1;
    }
    proof {
        assert(texts(a@) =~= texts(b@));
    }
    true
}

/// Holds the header of the second read to that of the first.
pub fn check_reopened_header(
    reopened: Result<Vec<String>, LoadFailure>,
    field_names: &Vec<String>,
    path: &str,
) -> (checked: Result<(), LoadFailure>)
    ensures
        match reopened {
            Err(_) => checked matches Err(failure) && failure@ == changed(
                path@,
                "its CSV header no longer parses"@,
            ),
            Ok(names) => if texts(names@) == texts(field_names@) {
                checked is Ok
            } else {
                checked matches Err(failure) && failure@ == changed(
                    path@,
                    "its CSV header no longer matches the resolved schema"@,
                )
            },
        },
{
    match reopened {
        Err(_) => Err(source_changed(path, "its CSV header no longer parses")),
        Ok(names) => if same_texts(&names, field_names) {
            Ok(())
        } else {
            Err(source_changed(path, "its CSV header no longer matches the resolved schema"))
        },
    }
}

/// The counts of the first read of a CSV file.
pub struct CsvPass {
    field_count: usize,
    parsed_records: u64,
    parse_rejected: u64,
}

impl CsvPass {
    /// The number of fields of the header.
    pub closed spec fn fields(self) -> nat {
        self.field_count as nat
    }

    /// The records that parsed so far.
    pub closed spec fn parsed(self) -> nat {
        self.parsed_records as nat
    }

    /// The records that did not parse so far.
    pub closed spec fn rejected(self) -> nat {
        self.parse_rejected as nat
    }

    /// A first read that has seen the header.
    pub fn new(field_count: usize) -> (pass: CsvPass)
        ensures
            pass.fields() == field_count,
            pass.parsed() == 0,
            pass.rejected() == 0,
    {
        CsvPass { field_count, parsed_records: 0, parse_rejected: 0 }
    }

    /// Classifies and counts one item. A rejection is to be recorded at once;
    /// a record is to be observed.
    pub fn on_record(&mut self, record: Result<csv::StringRecord, CsvReadError>) -> (item: CsvItem)
        requires
            old(self).parsed() + old(self).rejected() < u64::MAX,
        ensures
            csv_item_is(record, old(self).fields(), item),
            final(self).fields() == old(self).fields(),
            match item {
                CsvItem::Record(_) => final(self).parsed() == old(self).parsed() + 1
                    && final(self).rejected() == old(self).rejected(),
                CsvItem::Rejected(_) => final(self).parsed() == old(self).parsed()
                    && final(self).rejected() == old(self).rejected() + 1,
            },
    {
        let item = csv_item(record, self.field_count);
        match &item {
            CsvItem::Record(_) => {
                self.parsed_records = self.parsed_records + 1;
            },
            CsvItem::Rejected(_) => {
                self.parse_rejected = self.parse_rejected + 1;
            },
        }
        item
    }

    /// The records of the source, parsed or not.
    pub fn source_rows(&self) -> (rows: u64)
        requires
            self.parsed() + self.rejected() <= u64::MAX,
        ensures
            rows == self.parsed() + self.rejected(),
    {
        self.parsed_records + self.parse_rejected
    }
}

/// The names with those of the keys that are new, in the order in which they
/// come up.
pub open spec fn with_new_names(names: Seq<Seq<char>>, keys: Seq<Seq<char>>) -> Seq<Seq<char>>
    decreases keys.len(),
{
    if keys.len() == 0 {
        names
    } else {
        let known = with_new_names(names, keys.drop_last());
        if known.contains(keys.last()) {
            known
        } else {
            known.push(keys.last())
        }
    }
}

/// The keys of a JSON object, in order.
pub open spec fn keys_of(entries: Seq<(Seq<char>, JsonTree)>) -> Seq<Seq<char>> {
    entries.map_values(|e: (Seq<char>, JsonTree)| e.0)
}

/// The field names of a source are those of its records, each once, in the
/// order of first appearance.
pub proof fn law_field_names_are_the_key_union(names: Seq<Seq<char>>, keys: Seq<Seq<char>>)
    requires
        names.no_duplicates(),
    ensures
        with_new_names(names, keys).no_duplicates(),
        names.is_prefix_of(with_new_names(names, keys)),
        forall|name: Seq<char>| #[trigger]
            with_new_names(names, keys).contains(name) <==> names.contains(name) || keys.contains(
                name,
            ),
    decreases keys.len(),
{
    if keys.len() > 0 {
        let shorter = keys.drop_last();
        law_field_names_are_the_key_union(names, shorter);
        let known = with_new_names(names, shorter);
        let grown = with_new_names(names, keys);
        assert(shorter.push(keys.last()) =~= keys);
        assert forall|name: Seq<char>| keys.contains(name) <==> shorter.contains(name) || name
            == keys.last() by {
            if keys.contains(name) && name != keys.last() {
                let i = choose|i: int| 0 <= i < keys.len() && keys[i] == name;
                assert(shorter[i] == name);
            }
            if shorter.contains(name) {
                let i = choose|i: int| 0 <= i < shorter.len() && shorter[i] == name;
                assert(keys[i] == name);
            }
            if name == keys.last() {
                assert(keys[keys.len() - 1] == name);
            }
        }
        assert forall|name: Seq<char>| #[trigger] grown.contains(name) <==> known.contains(name)
            || name == keys.last() by {
            if known.contains(name) {
                let i = choose|i: int| 0 <= i < known.len() && known[i] == name;
                assert(grown[i] == name);
            }
            if name == keys.last() && !known.contains(name) {
                assert(grown[known.len() as int] == name);
            }
            if grown.contains(name) {
                let i = choose|i: int| 0 <= i < grown.len() && grown[i] == name;
                if i < known.len() {
                    assert(known[i] == name);
                }
            }
        }
    } else {
        assert forall|name: Seq<char>| #[trigger]
            with_new_names(names, keys).contains(name) <==> names.contains(name)
                || keys.contains(name) by {}
    }
}

/// The state of the first read of a JSONL file: the lines read, the counts,
/// and the fields that came up.
pub struct JsonlPass {
    line_number: u64,
    parsed_records: u64,
    parse_rejected: u64,
    field_names: Vec<String>,
}

/// The state of the first read of a JSONL file, mathematically.
pub struct JsonlPassView {
    pub lines: nat,
    pub parsed: nat,
    pub rejected: nat,
    pub field_names: Seq<Seq<char>>,
}

impl View for JsonlPass {
    type V = JsonlPassView;

    closed spec fn view(&self) -> JsonlPassView {
        JsonlPassView {
            lines: self.line_number as nat,
            parsed: self.parsed_records as nat,
            rejected: self.parse_rejected as nat,
            field_names: texts(self.field_names@),
        }
    }
}

impl JsonlPassView {
    /// The state after a line.
    pub open spec fn after(self, line: JsonlLine) -> JsonlPassView {
        match line {
            JsonlLine::Blank => JsonlPassView { lines: self.lines + 1, ..self },
            JsonlLine::Rejected(_) => JsonlPassView {
                lines: self.lines + 1,
                rejected: self.rejected + 1,
                ..self
            },
            JsonlLine::Record(record) => JsonlPassView {
                lines: self.lines + 1,
                parsed: self.parsed + 1,
                field_names: with_new_names(
                    self.field_names,
                    keys_of(object_entries(record.object)),
                ),
                ..self
            },
        }
    }
}

/// The failure of a JSONL file without any field.
pub open spec fn fieldless_jsonl(path: Seq<char>) -> FailureView {
    failing(
        "malformed_jsonl"@,
        "JSONL source "@ + path + " must include at least one record with fields"@,
    )
}

impl JsonlPass {
    /// Whether the counts fit the lines, and no field is named twice.
    pub closed spec fn wf(self) -> bool {
        &&& self.parsed_records + self.parse_rejected <= self.line_number
        &&& self@.field_names.no_duplicates()
    }

    /// No more records than lines, and no field twice.
    pub proof fn law_counts_fit_the_lines(self)
        requires
            self.wf(),
        ensures
            self@.parsed + self@.rejected <= self@.lines <= u64::MAX,
            self@.field_names.no_duplicates(),
    {
    }

    /// A first read that has seen nothing.
    pub fn new() -> (pass: JsonlPass)
        ensures
            pass.wf(),
            pass@ == (JsonlPassView { lines: 0, parsed: 0, rejected: 0, field_names: seq![] }),
    {
        let pass = JsonlPass {
            line_number: 0,
            parsed_records: 0,
            parse_rejected: 0,
            field_names: Vec::new(),
        };
        proof {
            assert(texts(pass.field_names@) =~= seq![]);
        }
        pass
    }

    /// Classifies and counts one line, given with its line end. A rejection is
    /// to be recorded at once; a record is to be observed.
    pub fn on_line(&mut self, line_bytes: &[u8]) -> (line: JsonlLine)
        requires
            old(self).wf(),
            old(self)@.lines < u64::MAX,
        ensures
            jsonl_line_is(line_bytes@, (old(self)@.lines + 1) as u64, line),
            final(self).wf(),
            final(self)@ == old(self)@.after(line),
    {
        self.line_number = self.line_number + 1;
        let line = jsonl_line_record(line_bytes, self.line_number);
        match &line {
            JsonlLine::Blank => {},
            JsonlLine::Rejected(_) => {
                self.parse_rejected = self.parse_rejected + 1;
            },
            JsonlLine::Record(record) => {
                self.parsed_records = self.parsed_records + 1;
                let keys = object_keys(&record.object);
                let ghost names = texts(self.field_names@);
                let ghost all = texts(keys@);
                let ghost counted = *self;
                let mut i: usize = 0;
                proof {
                    assert(all.take(0) =~= seq![]);
                }
                while i < keys.len()
                    invariant
                        i <= keys.len(),
                        all == texts(keys@),
                        self.line_number == counted.line_number,
                        self.parsed_records == counted.parsed_records,
                        self.parse_rejected == counted.parse_rejected,
                        texts(self.field_names@) == with_new_names(names, all.take(i as int)),
                    decreases keys.len() - i,
                {
                    proof {
                        assert(all.take(i as int + 1).drop_last() =~= all.take(i as int));
                        assert(all.take(i as int + 1).last() == keys@[i as int]@);
                    }
                    if !contains_text(&self.field_names, keys[i].as_str()) {
                        let ghost before = texts(self.field_names@);
                        self.field_names.push(keys[i].clone());
                        proof {
                            assert(texts(self.field_names@) =~= before.push(keys@[i as int]@));
                        }
                    }
                    i = i + 1;
                }
                proof {
                    assert(all.take(i as int) =~= all);
                    law_field_names_are_the_key_union(names, all);
                }
            },
        }
        line
    }

    /// The number of lines read.
    pub fn line_number(&self) -> (lines: u64)
        ensures
            lines == self@.lines,
    {
        self.line_number
    }

    /// The records of the source so far, parsed or not.
    pub fn source_rows(&self) -> (rows: u64)
        requires
            self.wf(),
        ensures
            rows == self@.parsed + self@.rejected,
    {
        self.parsed_records + self.parse_rejected
    }

    /// The failure of a first read that could not read on: what was counted
    /// by then travels.
    pub fn read_failure(&self, path: &str, error: &str, rejected_count: u64) -> (failure:
        ExecutionFailure)
        requires
            self.wf(),
        ensures
            failure == (ExecutionFailure {
                source_rows: Some((self@.parsed + self@.rejected) as u64),
                rejected_count,
                ..bare_failure(failure.failure)
            }),
            failure.failure@ == jsonl_read_failed(path@, self@.lines, error@),
    {
        let failure = jsonl_read_failure(path, self.line_number, error);
        ExecutionFailure {
            source_rows: Some(self.source_rows()),
            rejected_count,
            ..ExecutionFailure::from(failure)
        }
    }

    /// The fields of the source, once it was read to its end: a source in
    /// which no field came up is refused.
    pub fn finish(self, path: &str, rejected_count: u64) -> (fields: Result<
        Vec<String>,
        ExecutionFailure,
    >)
        requires
            self.wf(),
        ensures
            match fields {
                Ok(names) => texts(names@) == self@.field_names && self@.field_names.len() > 0,
                Err(failure) => {
                    &&& self@.field_names.len() == 0
                    &&& failure == (ExecutionFailure {
                        source_rows: Some((self@.parsed + self@.rejected) as u64),
                        rejected_count,
                        ..bare_failure(failure.failure)
                    })
                    &&& failure.failure@ == fieldless_jsonl(path@)
                },
            },
    {
        let rows: u64 = self.source_rows();
        if self.field_names.len() == 0 {
            let failure = LoadFailure::new(
                "malformed_jsonl",
                "JSONL source ".to_owned().concat(path).concat(
                    " must include at least one record with fields",
                ),
            );
            return Err(
                ExecutionFailure {
                    source_rows: Some(rows),
                    rejected_count,
                    ..ExecutionFailure::from(failure)
                },
            );
        }
        Ok(self.field_names)
    }
}

/// What one CSV item is in the second read, given what judging its record may
/// say.
pub open spec fn csv_source_item_is<J: FnOnce(&TextRecord) -> bool>(
    item: CsvItem,
    judge: J,
    source_item: SourceItem<TextRecord>,
) -> bool {
    match item {
        CsvItem::Rejected(rejection) => source_item == SourceItem::<TextRecord>::Rejected {
            line: rejection.line,
        },
        CsvItem::Record(text) => source_item matches SourceItem::Record {
            line,
            rejected_now,
            record,
        } && line == text.line && record == text && judge.ensures((&text,), rejected_now),
    }
}

/// Turns one item of a CSV reader into an item of the second read. `judge`
/// says whether a record is rejected.
pub fn csv_source_item<J: FnOnce(&TextRecord) -> bool>(
    record: Result<csv::StringRecord, CsvReadError>,
    field_count: usize,
    judge: J,
) -> (source_item: SourceItem<TextRecord>)
    requires
        forall|text: &TextRecord| #[trigger] judge.requires((text,)),
    ensures
        exists|item: CsvItem|
            {
                &&& #[trigger] csv_item_is(record, field_count as nat, item)
                &&& csv_source_item_is(item, judge, source_item)
            },
{
    let item = csv_item(record, field_count);
    let ghost classified = item;
    let source_item = match item {
        CsvItem::Rejected(rejection) => SourceItem::Rejected { line: rejection.line },
        CsvItem::Record(text) => {
            let rejected_now = judge(&text);
            SourceItem::Record { line: text.line, rejected_now, record: text }
        },
    };
    proof {
        assert(csv_item_is(record, field_count as nat, classified));
        assert(csv_source_item_is(classified, judge, source_item));
    }
    source_item
}

/// The first of the keys that the shape does not hold.
pub open spec fn first_outside(keys: Seq<Seq<char>>, shape: Seq<Seq<char>>) -> Option<Seq<char>>
    decreases keys.len(),
{
    if keys.len() == 0 {
        None
    } else if !shape.contains(keys[0]) {
        Some(keys[0])
    } else {
        first_outside(keys.drop_first(), shape)
    }
}

/// The detail of a record with a field that the first read did not see.
pub open spec fn shape_detail(line: u64, key: Seq<char>) -> Seq<char> {
    "the record at line "@ + decimal(line as nat) + " carries field "@ + debug_notation(key)
        + " outside the resolved schema shape"@
}

/// Holds the fields of a record to those the first read saw.
pub fn check_resolved_shape(record: &JsonRecord, resolved_shape: &Vec<String>, path: &str) -> (
checked: Result<(), LoadFailure>)
    ensures
        match first_outside(keys_of(object_entries(record.object)), texts(resolved_shape@)) {
            None => checked is Ok,
            Some(key) => checked matches Err(failure) && failure@ == changed(
                path@,
                shape_detail(record.line, key),
            ),
        },
{
    let keys = object_keys(&record.object);
    let ghost all = texts(keys@);
    let ghost shape = texts(resolved_shape@);
    proof {
        assert(all == keys_of(object_entries(record.object)));
        assert(all.skip(0) =~= all);
    }
    let mut i: usize = 0;
    while i < keys.len()
        invariant
            i <= keys.len(),
            all == texts(keys@),
            all == keys_of(object_entries(record.object)),
            shape == texts(resolved_shape@),
            first_outside(all.skip(i as int), shape) == first_outside(all, shape),
        decreases keys.len() - i,
    {
        proof {
            assert(all.skip(i as int)[0] == keys@[i as int]@);
            assert(all.skip(i as int).drop_first() =~= all.skip(i as int + 1));
        }
        if !contains_text(resolved_shape, keys[i].as_str()) {
            let detail = "the record at line ".to_owned().concat(
                decimal_text(record.line).as_str(),
            ).concat(" carries field ").concat(debug_text(keys[i].as_str()).as_str()).concat(
                " outside the resolved schema shape",
            );
            return Err(source_changed(path, detail.as_str()));
        }
        i = i + 1;
    }
    Ok(())
}

/// What one JSONL line is in the second read, given what judging its record
/// may say: a record with a field outside the shape is a change of the source.
pub open spec fn jsonl_source_item_is<J: FnOnce(&JsonRecord) -> bool>(
    line: JsonlLine,
    shape: Seq<Seq<char>>,
    path: Seq<char>,
    judge: J,
    source_item: Result<SourceItem<JsonRecord>, LoadFailure>,
) -> bool {
    match line {
        JsonlLine::Blank => source_item matches Ok(item) && item is Blank,
        JsonlLine::Rejected(rejection) => source_item matches Ok(item) && item
            == SourceItem::<JsonRecord>::Rejected { line: rejection.line },
        JsonlLine::Record(read) => match first_outside(
            keys_of(object_entries(read.object)),
            shape,
        ) {
            Some(key) => source_item matches Err(failure) && failure@ == changed(
                path,
                shape_detail(read.line, key),
            ),
            None => source_item matches Ok(SourceItem::Record { line, rejected_now, record })
                && line == read.line && record == read && judge.ensures((&read,), rejected_now),
        },
    }
}

/// Turns one JSONL line into an item of the second read. `judge` says whether
/// a record is rejected.
pub fn jsonl_source_item<J: FnOnce(&JsonRecord) -> bool>(
    line_bytes: &[u8],
    line_number: u64,
    resolved_shape: &Vec<String>,
    path: &str,
    judge: J,
) -> (source_item: Result<SourceItem<JsonRecord>, LoadFailure>)
    requires
        forall|record: &JsonRecord| #[trigger] judge.requires((record,)),
    ensures
        exists|line: JsonlLine|
            {
                &&& #[trigger] jsonl_line_is(line_bytes@, line_number, line)
                &&& jsonl_source_item_is(
                    line,
                    texts(resolved_shape@),
                    path@,
                    judge,
                    source_item,
                )
            },
{
    let line = jsonl_line_record(line_bytes, line_number);
    let ghost classified = line;
    let source_item = match line {
        JsonlLine::Blank => Ok(SourceItem::Blank),
        JsonlLine::Rejected(rejection) => Ok(SourceItem::Rejected { line: rejection.line }),
        JsonlLine::Record(record) => match check_resolved_shape(&record, resolved_shape, path) {
            Err(failure) => Err(failure),
            Ok(_) => {
                let rejected_now = judge(&record);
                Ok(SourceItem::Record { line: record.line, rejected_now, record })
            },
        },
    };
    proof {
        assert(jsonl_line_is(line_bytes@, line_number, classified));
        assert(jsonl_source_item_is(
            classified,
            texts(resolved_shape@),
            path@,
            judge,
            source_item,
        ));
    }
    source_item
}

/// The format a definition names is the one; without one it is the extension of the
/// path, or nothing where the path has none.
pub proof fn law_named_format_comes_before_the_extension(
    path: &str,
    named: Option<&str>,
    resolved: String,
)
    requires
        call_ensures(resolved_source_format, (path, named), resolved),
    ensures
        named matches Some(format) ==> resolved@ == format@,
        named is None && file_extension(path@) is Some ==> resolved@
            == file_extension(path@)->Some_0,
        named is None && file_extension(path@) is None ==> resolved@.len() == 0,
{
}

/// A source is read as CSV exactly where its format is `csv`, as JSONL exactly where
/// it is `jsonl`, and refused otherwise.
pub proof fn law_source_is_read_in_its_format(
    source: LocalFileSource,
    resolved: String,
    read: Result<SourceFormat, LoadFailure>,
)
    requires
        call_ensures(LocalFileSource::resolved_format, (&source,), resolved),
        call_ensures(LocalFileSource::read_format, (&source,), read),
    ensures
        source.format matches Some(format) ==> resolved@ == format@,
        source.format is None && file_extension(source.path@) is Some ==> resolved@
            == file_extension(source.path@)->Some_0,
        source.format is None && file_extension(source.path@) is None ==> resolved@.len() == 0,
        resolved@ == "csv"@ <==> read == Ok::<SourceFormat, LoadFailure>(SourceFormat::Csv),
        resolved@ == "jsonl"@ <==> read == Ok::<SourceFormat, LoadFailure>(SourceFormat::Jsonl),
        read matches Err(failure) ==> failure.code@ == "unsupported_source_format"@
            && failure.message@
            == "only local CSV and JSONL sources are supported by this load path"@,
{
    reveal_strlit("csv");
    reveal_strlit("jsonl");
    assert("csv"@.len() != "jsonl"@.len());
    if let Err(failure) = read {
        assert(format_name(SourceFormat::Csv)@ != source.format_view());
        assert(format_name(SourceFormat::Jsonl)@ != source.format_view());
        assert(failure@.code == failure.code@ && failure@.message == failure.message@);
    }
}

/// A source that cannot be opened or read is named, with what was tried and the error.
pub proof fn law_unreadable_source_is_named(
    action: &str,
    label: &str,
    path: &str,
    error: &str,
    after_line: u64,
    unopened: LoadFailure,
    unread: LoadFailure,
)
    requires
        call_ensures(source_file_failure, (action, label, path, error), unopened),
        call_ensures(jsonl_read_failure, (path, after_line, error), unread),
    ensures
        unopened.code@ == "source_read_failed"@,
        unopened.message@ == "failed to "@ + action@ + " "@ + label@ + " source "@ + path@ + ": "@
            + error@,
        unread.code@ == "source_read_failed"@,
        unread.message@ == "failed to read JSONL source "@ + path@ + " after line "@ + decimal(
            after_line as nat,
        ) + ": "@ + error@,
{
    assert(unopened@.code == unopened.code@ && unopened@.message == unopened.message@);
    assert(unread@.code == unread.code@ && unread@.message == unread.message@);
}

/// A header that parsed with fields is taken as it is; one without fields, and one
/// that did not parse, make the CSV malformed.
pub proof fn law_csv_header_needs_a_field(
    header: Result<Vec<String>, String>,
    path: &str,
    names: Result<Vec<String>, LoadFailure>,
)
    requires
        call_ensures(read_csv_header, (header, path), names),
    ensures
        names is Ok <==> header is Ok && header->Ok_0@.len() > 0,
        names is Ok ==> names->Ok_0 == header->Ok_0,
        names matches Err(failure) ==> failure.code@ == "malformed_csv"@ && failure.message@ == (
        match header {
            Err(error) => "malformed CSV syntax in "@ + path@ + ": "@ + error@,
            Ok(_) => "CSV source "@ + path@ + " must include at least one header field"@,
        }),
{
    if let Err(failure) = names {
        assert(failure@.code == failure.code@ && failure@.message == failure.message@);
    }
}

/// The second read goes on exactly where its header parses and names the same fields
/// in the same order as that of the first read.
pub proof fn law_reopened_header_is_the_first_one(
    reopened: Result<Vec<String>, LoadFailure>,
    field_names: Vec<String>,
    path: &str,
    checked: Result<(), LoadFailure>,
)
    requires
        call_ensures(check_reopened_header, (reopened, &field_names, path), checked),
    ensures
        checked is Ok <==> (reopened matches Ok(names) && names@.len() == field_names@.len()
            && forall|i: int|
            0 <= i < names@.len() ==> (#[trigger] names@[i])@ == field_names@[i]@),
        checked matches Err(failure) ==> failure.code@ == "source_changed_during_load"@
            && failure.message@ == "source "@ + path@ + " changed during the load: "@ + (
        if reopened is Err {
            "its CSV header no longer parses"@
        } else {
            "its CSV header no longer matches the resolved schema"@
        }),
{
    if let Err(failure) = checked {
        assert(failure@.code == failure.code@ && failure@.message == failure.message@);
    }
    if let Ok(names) = reopened {
        let a = texts(names@);
        let b = texts(field_names@);
        if a == b {
            assert(a.len() == b.len());
            assert forall|i: int| 0 <= i < names@.len() implies (#[trigger] names@[i])@
                == field_names@[i]@ by {
                assert(a[i] == b[i]);
            }
        } else if names@.len() == field_names@.len() {
            if forall|i: int| 0 <= i < names@.len() ==> (#[trigger] names@[i])@
                == field_names@[i]@ {
                assert forall|i: int| 0 <= i < a.len() implies a[i] == b[i] by {
                    assert(names@[i]@ == field_names@[i]@);
                }
                assert(a =~= b);
            }
        }
    }
}

/// A CSV read counts each record once, as parsed or as rejected, and its rows are all
/// of them.
pub proof fn law_csv_read_counts_every_record(
    field_count: usize,
    fresh: CsvPass,
    pass: &mut CsvPass,
    record: Result<csv::StringRecord, CsvReadError>,
    item: CsvItem,
    counted: CsvPass,
    rows: u64,
)
    requires
        call_ensures(CsvPass::new, (field_count,), fresh),
        call_ensures(CsvPass::on_record, (pass, record), item),
        call_ensures(CsvPass::source_rows, (&counted,), rows),
    ensures
        fresh.fields() == field_count && fresh.parsed() == 0 && fresh.rejected() == 0,
        csv_item_is(record, old(pass).fields(), item),
        final(pass).fields() == old(pass).fields(),
        final(pass).parsed() + final(pass).rejected() == old(pass).parsed() + old(pass).rejected()
            + 1,
        item is Record <==> final(pass).parsed() == old(pass).parsed() + 1,
        item is Rejected <==> final(pass).rejected() == old(pass).rejected() + 1,
        rows == counted.parsed() + counted.rejected(),
{
}

/// Whether these are places of the keys, one behind another.
pub open spec fn ascending_places(places: Seq<int>, keys: Seq<Seq<char>>) -> bool {
    &&& forall|k: int| 0 <= k < places.len() ==> 0 <= #[trigger] places[k] < keys.len()
    &&& forall|a: int, b: int|
        0 <= a < b < places.len() ==> #[trigger] places[a] < #[trigger] places[b]
}

proof fn lemma_new_names_keep_their_order(names: Seq<Seq<char>>, keys: Seq<Seq<char>>) -> (places:
    Seq<int>)
    ensures
        with_new_names(names, keys).len() == names.len() + places.len(),
        with_new_names(names, keys).take(names.len() as int) == names,
        ascending_places(places, keys),
        forall|k: int|
            0 <= k < places.len() ==> with_new_names(names, keys)[names.len() + k]
                == keys[#[trigger] places[k]],
    decreases keys.len(),
{
    let grown = with_new_names(names, keys);
    if keys.len() == 0 {
        assert(grown.take(names.len() as int) =~= names);
        seq![]
    } else {
        let shorter = keys.drop_last();
        let known = with_new_names(names, shorter);
        let before = lemma_new_names_keep_their_order(names, shorter);
        assert(known.take(names.len() as int) =~= names);
        let places = if known.contains(keys.last()) {
            before
        } else {
            before.push(keys.len() - 1)
        };
        assert(grown.take(names.len() as int) =~= known.take(names.len() as int));
        assert forall|k: int| 0 <= k < places.len() implies grown[names.len() + k]
            == keys[#[trigger] places[k]] by {
            if k < before.len() {
                assert(places[k] == before[k]);
                assert(known[names.len() + k] == shorter[before[k]]);
            }
        }
        assert(ascending_places(places, keys)) by {
            assert forall|k: int| 0 <= k < places.len() implies 0 <= #[trigger] places[k]
                < keys.len() by {
                if k < before.len() {
                    assert(places[k] == before[k]);
                }
            }
            assert forall|a: int, b: int| 0 <= a < b < places.len() implies #[trigger] places[a]
                < #[trigger] places[b] by {
                assert(places[a] == before[a]);
                if b < before.len() {
                    assert(places[b] == before[b]);
                }
            }
        }
        places
    }
}

/// A JSONL read counts every line, and every line that holds something once, as a
/// record or as rejected. The fields it knows stay in front; those of a record that
/// are new follow in the order of the record, each once, and nothing else does.
pub proof fn law_jsonl_read_counts_every_line(
    fresh: JsonlPass,
    pass: &mut JsonlPass,
    line_bytes: &[u8],
    line: JsonlLine,
)
    requires
        call_ensures(JsonlPass::new, (), fresh),
        old(pass).wf(),
        call_ensures(JsonlPass::on_line, (pass, line_bytes), line),
    ensures
        fresh@.lines == 0 && fresh@.parsed == 0 && fresh@.rejected == 0
            && fresh@.field_names.len() == 0,
        jsonl_line_is(line_bytes@, (old(pass)@.lines + 1) as u64, line),
        final(pass)@.lines == old(pass)@.lines + 1,
        line is Blank ==> final(pass)@.parsed == old(pass)@.parsed && final(pass)@.rejected
            == old(pass)@.rejected && final(pass)@.field_names == old(pass)@.field_names,
        line is Rejected ==> final(pass)@.parsed == old(pass)@.parsed && final(pass)@.rejected
            == old(pass)@.rejected + 1 && final(pass)@.field_names == old(pass)@.field_names,
        line matches JsonlLine::Record(record) ==> {
            let entries = object_entries(record.object);
            let before = old(pass)@.field_names;
            let after = final(pass)@.field_names;
            &&& final(pass)@.parsed == old(pass)@.parsed + 1
            &&& final(pass)@.rejected == old(pass)@.rejected
            &&& before.len() <= after.len() && after.take(before.len() as int) == before
            &&& forall|a: int, b: int|
                0 <= a < b < after.len() ==> #[trigger] after[a] != #[trigger] after[b]
            &&& forall|i: int|
                0 <= i < entries.len() ==> after.contains((#[trigger] entries[i]).0)
            &&& exists|places: Seq<int>|
                {
                    &&& places.len() == after.len() - before.len()
                    &&& #[trigger] ascending_places(places, keys_of(entries))
                    &&& forall|k: int|
                        0 <= k < places.len() ==> after[before.len() + k]
                            == entries[#[trigger] places[k]].0
                }
        },
{
    old(pass).law_counts_fit_the_lines();
    if let JsonlLine::Record(record) = line {
        let entries = object_entries(record.object);
        let keys = keys_of(entries);
        let before = old(pass)@.field_names;
        let after = final(pass)@.field_names;
        law_field_names_are_the_key_union(before, keys);
        let places = lemma_new_names_keep_their_order(before, keys);
        assert forall|i: int| 0 <= i < entries.len() implies after.contains(
            (#[trigger] entries[i]).0,
        ) by {
            assert(keys[i] == entries[i].0);
            assert(keys.contains(entries[i].0));
        }
        assert(ascending_places(places, keys));
    }
}

/// What a JSONL read has counted travels with its failures, and its rows are all
/// that it counted. It has fields exactly where some record had one.
pub proof fn law_jsonl_read_ends_with_its_counts(
    pass: JsonlPass,
    path: &str,
    error: &str,
    rejected_count: u64,
    lines: u64,
    rows: u64,
    unread: ExecutionFailure,
    finished: Result<Vec<String>, ExecutionFailure>,
)
    requires
        pass.wf(),
        call_ensures(JsonlPass::line_number, (&pass,), lines),
        call_ensures(JsonlPass::source_rows, (&pass,), rows),
        call_ensures(JsonlPass::read_failure, (&pass, path, error, rejected_count), unread),
        call_ensures(JsonlPass::finish, (pass, path, rejected_count), finished),
    ensures
        lines == pass@.lines,
        rows == pass@.parsed + pass@.rejected,
        unread.source_rows == Some(rows) && unread.rejected_count == rejected_count,
        unread.failure.code@ == "source_read_failed"@,
        unread.failure.message@ == "failed to read JSONL source "@ + path@ + " after line "@
            + decimal(pass@.lines) + ": "@ + error@,
        finished is Ok <==> pass@.field_names.len() > 0,
        finished matches Ok(names) ==> names@.len() == pass@.field_names.len() && forall|i: int|
            0 <= i < names@.len() ==> (#[trigger] names@[i])@ == pass@.field_names[i],
        finished matches Err(failure) ==> failure.source_rows == Some(rows)
            && failure.rejected_count == rejected_count && failure.failure.code@
            == "malformed_jsonl"@ && failure.failure.message@ == "JSONL source "@ + path@
            + " must include at least one record with fields"@,
{
    pass.law_counts_fit_the_lines();
    assert(unread.failure@.code == unread.failure.code@ && unread.failure@.message
        == unread.failure.message@);
    match finished {
        Ok(names) => {
            assert(texts(names@).len() == names@.len());
            assert forall|i: int| 0 <= i < names@.len() implies (#[trigger] names@[i])@
                == pass@.field_names[i] by {
                assert(texts(names@)[i] == names@[i]@);
            }
        },
        Err(failure) => {
            assert(failure.failure@.code == failure.failure.code@ && failure.failure@.message
                == failure.failure.message@);
        },
    }
}

/// In the second read of a CSV file each record stands at its line, whole, with what
/// judging it said, and an unreadable one as rejected at its line.
pub proof fn law_second_csv_read_judges_every_record<J: FnOnce(&TextRecord) -> bool>(
    record: Result<csv::StringRecord, CsvReadError>,
    field_count: usize,
    judge: J,
    source_item: SourceItem<TextRecord>,
)
    requires
        call_ensures(csv_source_item::<J>, (record, field_count, judge), source_item),
    ensures
        !(source_item is Blank),
        exists|item: CsvItem|
            {
                &&& #[trigger] csv_item_is(record, field_count as nat, item)
                &&& item matches CsvItem::Rejected(rejection) ==> (source_item matches
                SourceItem::Rejected { line } && line == rejection.line)
                &&& item matches CsvItem::Record(text) ==> (source_item matches
                SourceItem::Record { line, rejected_now, record: kept } && line == text.line
                    && kept == text && judge.ensures((&text,), rejected_now))
            },
{
    let item = choose|item: CsvItem|
        {
            &&& #[trigger] csv_item_is(record, field_count as nat, item)
            &&& csv_source_item_is(item, judge, source_item)
        };
    assert(csv_item_is(record, field_count as nat, item));
}

proof fn lemma_first_outside(keys: Seq<Seq<char>>, shape: Seq<Seq<char>>)
    ensures
        first_outside(keys, shape) is None ==> forall|i: int|
            0 <= i < keys.len() ==> shape.contains(#[trigger] keys[i]),
        first_outside(keys, shape) is Some ==> exists|i: int|
            {
                &&& 0 <= i < keys.len()
                &&& #[trigger] keys[i] == first_outside(keys, shape)->Some_0
                &&& !shape.contains(keys[i])
                &&& forall|k: int| 0 <= k < i ==> shape.contains(#[trigger] keys[k])
            },
    decreases keys.len(),
{
    if keys.len() > 0 {
        if shape.contains(keys[0]) {
            let rest = keys.drop_first();
            lemma_first_outside(rest, shape);
            if first_outside(keys, shape) is None {
                assert forall|i: int| 0 <= i < keys.len() implies shape.contains(
                    #[trigger] keys[i],
                ) by {
                    if i > 0 {
                        assert(keys[i] == rest[i - 1]);
                    }
                }
            } else {
                let i = choose|i: int|
                    {
                        &&& 0 <= i < rest.len()
                        &&& #[trigger] rest[i] == first_outside(rest, shape)->Some_0
                        &&& !shape.contains(rest[i])
                        &&& forall|k: int| 0 <= k < i ==> shape.contains(#[trigger] rest[k])
                    };
                assert(keys[i + 1] == rest[i]);
                assert forall|k: int| 0 <= k < i + 1 implies shape.contains(#[trigger] keys[k]) by {
                    if k > 0 {
                        assert(keys[k] == rest[k - 1]);
                    }
                }
            }
        } else {
            assert(keys[0] == first_outside(keys, shape)->Some_0);
        }
    }
}

/// A record has the resolved shape exactly where every one of its fields is in it.
/// Otherwise the first that is not is named, with the line of the record.
pub proof fn law_record_keeps_to_the_resolved_shape(
    record: JsonRecord,
    resolved_shape: Vec<String>,
    path: &str,
    checked: Result<(), LoadFailure>,
)
    requires
        call_ensures(check_resolved_shape, (&record, &resolved_shape, path), checked),
    ensures
        ({
            let entries = object_entries(record.object);
            let shape = texts(resolved_shape@);
            &&& checked is Ok <==> forall|i: int|
                0 <= i < entries.len() ==> shape.contains((#[trigger] entries[i]).0)
            &&& checked matches Err(failure) ==> exists|i: int|
                {
                    &&& 0 <= i < entries.len()
                    &&& !shape.contains((#[trigger] entries[i]).0)
                    &&& forall|k: int| 0 <= k < i ==> shape.contains((#[trigger] entries[k]).0)
                    &&& failure.code@ == "source_changed_during_load"@
                    &&& failure.message@ == "source "@ + path@ + " changed during the load: "@ + (
                    "the record at line "@ + decimal(record.line as nat) + " carries field "@
                        + debug_notation(entries[i].0) + " outside the resolved schema shape"@)
                }
        }),
{
    let entries = object_entries(record.object);
    let keys = keys_of(entries);
    let shape = texts(resolved_shape@);
    lemma_first_outside(keys, shape);
    assert forall|i: int| 0 <= i < entries.len() implies keys[i] == (#[trigger] entries[i]).0 by {}
    match checked {
        Ok(_) => {
            assert forall|i: int| 0 <= i < entries.len() implies shape.contains(
                (#[trigger] entries[i]).0,
            ) by {
                assert(shape.contains(keys[i]));
            }
        },
        Err(failure) => {
            assert(failure@.code == failure.code@ && failure@.message == failure.message@);
            let i = choose|i: int|
                {
                    &&& 0 <= i < keys.len()
                    &&& #[trigger] keys[i] == first_outside(keys, shape)->Some_0
                    &&& !shape.contains(keys[i])
                    &&& forall|k: int| 0 <= k < i ==> shape.contains(#[trigger] keys[k])
                };
            assert(!shape.contains(entries[i].0));
            assert forall|k: int| 0 <= k < i implies shape.contains((#[trigger] entries[k]).0) by {
                assert(shape.contains(keys[k]));
            }
        },
    }
}

/// In the second read of a JSONL file a blank line stays blank, an unreadable one is
/// rejected at its line, and a record of the resolved shape stands at its line,
/// whole, with what judging it said. Only a record with another field is a failure.
pub proof fn law_second_jsonl_read_judges_every_record<J: FnOnce(&JsonRecord) -> bool>(
    line_bytes: &[u8],
    line_number: u64,
    resolved_shape: Vec<String>,
    path: &str,
    judge: J,
    source_item: Result<SourceItem<JsonRecord>, LoadFailure>,
)
    requires
        call_ensures(
            jsonl_source_item::<J>,
            (line_bytes, line_number, &resolved_shape, path, judge),
            source_item,
        ),
    ensures
        exists|read: JsonlLine|
            {
                &&& #[trigger] jsonl_line_is(line_bytes@, line_number, read)
                &&& read is Blank ==> (source_item matches Ok(item) && item is Blank)
                &&& read matches JsonlLine::Rejected(rejection) ==> (source_item matches Ok(
                    SourceItem::Rejected { line },
                ) && line == rejection.line)
                &&& read matches JsonlLine::Record(whole) ==> {
                    let entries = object_entries(whole.object);
                    let shape = texts(resolved_shape@);
                    &&& source_item is Ok <==> forall|i: int|
                        0 <= i < entries.len() ==> shape.contains((#[trigger] entries[i]).0)
                    &&& source_item is Ok ==> (source_item matches Ok(
                        SourceItem::Record { line, rejected_now, record },
                    ) && line == whole.line && record == whole && judge.ensures(
                        (&whole,),
                        rejected_now,
                    ))
                }
                &&& source_item matches Err(failure) ==> failure.code@
                    == "source_changed_during_load"@
            },
{
    let read = choose|line: JsonlLine|
        {
            &&& #[trigger] jsonl_line_is(line_bytes@, line_number, line)
            &&& jsonl_source_item_is(line, texts(resolved_shape@), path@, judge, source_item)
        };
    assert(jsonl_line_is(line_bytes@, line_number, read));
    if let Err(failure) = source_item {
        assert(failure@.code == failure.code@);
    }
    if let JsonlLine::Record(whole) = read {
        let entries = object_entries(whole.object);
        let keys = keys_of(entries);
        let shape = texts(resolved_shape@);
        lemma_first_outside(keys, shape);
        if first_outside(keys, shape) is None {
            assert forall|i: int| 0 <= i < entries.len() implies shape.contains(
                (#[trigger] entries[i]).0,
            ) by {
                assert(shape.contains(keys[i]));
            }
        } else {
            let i = choose|i: int|
                {
                    &&& 0 <= i < keys.len()
                    &&& #[trigger] keys[i] == first_outside(keys, shape)->Some_0
                    &&& !shape.contains(keys[i])
                    &&& forall|k: int| 0 <= k < i ==> shape.contains(#[trigger] keys[k])
                };
            assert(!shape.contains(entries[i].0));
        }
    }
}

} // verus!
