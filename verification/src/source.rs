//! Source records: how CSV records and JSONL lines are classified, and the
//! byte hash that guards a source against changing between two reads.
use crate::json::{
    into_object, json_array, json_null, json_text, json_tree, object_entries, parse_json,
    parsed_json, trees, JsonTree,
};
use crate::rejection::{
    parse_rejection, RejectedRecord, MALFORMED_CSV_RECORD, MALFORMED_JSONL_RECORD,
};
use crate::text::{blank, decimal, decimal_text, is_blank, texts};
use serde_json::Value;
use vstd::prelude::*;
use vstd::string::*;
use vstd::utf8::{decode_utf8, encode_utf8, encode_utf8_decode_utf8, valid_utf8};

verus! {

/// `csv::StringRecord`, known only through `csv_cells` and `csv_line`.
#[verifier::external_type_specification]
#[verifier::external_body]
pub struct ExStringRecord(csv::StringRecord);

/// The cells of a CSV record.
pub uninterp spec fn csv_cells(record: csv::StringRecord) -> Seq<Seq<char>>;

/// The source line a CSV record starts at, where its reader noted one.
pub uninterp spec fn csv_line(record: csv::StringRecord) -> Option<u64>;

/// The text of the error that decoding these bytes as UTF-8 gives.
pub uninterp spec fn utf8_error_text(bytes: Seq<u8>) -> Seq<char>;

/// The bytes as text, with what is not UTF-8 replaced.
pub uninterp spec fn lossy_text(bytes: Seq<u8>) -> Seq<char>;

/// `StringRecord::iter` yields the cells in order.
#[verifier::external_body]
fn record_cells(record: &csv::StringRecord) -> (cells: Vec<String>)
    ensures
        texts(cells@) == csv_cells(*record),
{
    record.iter().map(|cell| cell.to_string()).collect()
}

/// `StringRecord::position` is where the record starts, and `Position::line`
/// the line of it.
#[verifier::external_body]
fn record_line(record: &csv::StringRecord) -> (line: Option<u64>)
    ensures
        line == csv_line(*record),
{
    record.position().map(|position| position.line())
}

/// `std::str::from_utf8` decodes exactly the byte sequences that are valid
/// UTF-8, and names the failure's text for every other.
#[verifier::external_body]
fn utf8_text(bytes: &[u8]) -> (text: Result<&str, String>)
    ensures
        match text {
            Ok(text) => valid_utf8(bytes@) && encode_utf8(text@) == bytes@,
            Err(message) => !valid_utf8(bytes@) && message@ == utf8_error_text(bytes@),
        },
{
    std::str::from_utf8(bytes).map_err(|error| error.to_string())
}

/// `String::from_utf8_lossy` decodes any bytes.
#[verifier::external_body]
fn recovered_text(bytes: &[u8]) -> (text: String)
    ensures
        text@ == lossy_text(bytes@),
{
    String::from_utf8_lossy(bytes).into_owned()
}

/// A CSV record as text cells; an empty cell holds nothing.
#[derive(Debug)]
pub struct TextRecord {
    pub line: u64,
    pub cells: Vec<Option<String>>,
}

/// A JSONL record as a JSON object.
#[derive(Debug)]
pub struct JsonRecord {
    pub line: u64,
    pub object: serde_json::Map<String, Value>,
}

/// A CSV record that its reader could not read.
#[derive(Debug)]
pub struct CsvReadError {
    pub line: Option<u64>,
    pub message: String,
}

/// A CSV item: a record of the header's fields, or the rejection it earns.
#[derive(Debug)]
pub enum CsvItem {
    Record(TextRecord),
    Rejected(RejectedRecord),
}

/// A JSONL line: white space, a record, or the rejection it earns.
#[derive(Debug)]
pub enum JsonlLine {
    Blank,
    Record(JsonRecord),
    Rejected(RejectedRecord),
}

/// What a cell holds: nothing where it is empty.
pub open spec fn cell_value(cell: Seq<char>) -> Option<Seq<char>> {
    if cell.len() == 0 {
        None
    } else {
        Some(cell)
    }
}

/// The values of the cells of a record.
pub open spec fn cell_views(cells: Seq<Option<String>>) -> Seq<Option<Seq<char>>> {
    cells.map_values(
        |cell: Option<String>|
            match cell {
                Some(text) => Some(text@),
                None => None,
            },
    )
}

/// A line, or zero where none is known.
pub open spec fn line_or_zero(line: Option<u64>) -> u64 {
    match line {
        Some(line) => line,
        None => 0,
    }
}

/// What the cells of a record are: another number of them than the header has
/// fields is rejected with the cells recovered as a list; else it is a record
/// whose empty cells hold nothing.
pub open spec fn cells_are(
    line: Option<u64>,
    cells: Seq<Seq<char>>,
    field_count: nat,
    item: CsvItem,
) -> bool {
    if cells.len() != field_count {
        item matches CsvItem::Rejected(rejection) && rejection@ == parse_rejection(
            line_or_zero(line),
            MALFORMED_CSV_RECORD@,
            "expected "@ + decimal(field_count) + " fields, found "@ + decimal(cells.len()),
            JsonTree::Array(cells.map_values(|cell: Seq<char>| JsonTree::Text(cell))),
        )
    } else {
        item matches CsvItem::Record(text) && text.line == line_or_zero(line) && cell_views(
            text.cells@,
        ) == cells.map_values(|cell: Seq<char>| cell_value(cell))
    }
}

/// What a CSV item is: an unreadable record is rejected with the reader's
/// message and nothing recovered, and any other is what its cells are.
pub open spec fn csv_item_is(
    read: Result<csv::StringRecord, CsvReadError>,
    field_count: nat,
    item: CsvItem,
) -> bool {
    match read {
        Err(error) => item matches CsvItem::Rejected(rejection) && rejection@ == parse_rejection(
            line_or_zero(error.line),
            MALFORMED_CSV_RECORD@,
            error.message@,
            JsonTree::Null,
        ),
        Ok(record) => cells_are(csv_line(record), csv_cells(record), field_count, item),
    }
}

/// Classifies the cells of a record.
pub fn classify_cells(line: Option<u64>, cells: Vec<String>, field_count: usize) -> (item: CsvItem)
    ensures
        cells_are(line, texts(cells@), field_count as nat, item),
{
    let line: u64 = match line {
        Some(line) => line,
        None => 0,
    };
    let ghost found = texts(cells@);
    if cells.len() != field_count {
        let mut recovered: Vec<Value> = Vec::new();
        let mut i: usize = 0;
        while i < cells.len()
            invariant
                i <= cells.len(),
                recovered.len() == i,
                texts(cells@) == found,
                forall|j: int|
                    0 <= j < i ==> json_tree(#[trigger] recovered@[j]) == JsonTree::Text(found[j]),
            decreases cells.len() - i,
        {
            proof {
                assert(found[i as int] == cells@[i as int]@);
            }
            recovered.push(json_text(cells[i].clone()));
            i = i + 1;
        }
        proof {
            assert(trees(recovered@) =~= found.map_values(
                |cell: Seq<char>| JsonTree::Text(cell),
            ));
        }
        let message = "expected ".to_owned().concat(
            decimal_text(field_count as u64).as_str(),
        ).concat(" fields, found ").concat(decimal_text(cells.len() as u64).as_str());
        CsvItem::Rejected(
            RejectedRecord {
                line,
                code: MALFORMED_CSV_RECORD,
                field: None,
                source_field: None,
                message,
                record: json_array(recovered),
            },
        )
    } else {
        let mut values: Vec<Option<String>> = Vec::new();
        let mut i: usize = 0;
        while i < cells.len()
            invariant
                i <= cells.len(),
                values.len() == i,
                texts(cells@) == found,
                forall|j: int|
                    0 <= j < i ==> cell_views(values@)[j] == cell_value(#[trigger] found[j]),
            decreases cells.len() - i,
        {
            proof {
                assert(found[i as int] == cells@[i as int]@);
            }
            let ghost before = values@;
            if cells[i].as_str().is_empty() {
                values.push(None);
            } else {
                values.push(Some(cells[i].clone()));
            }
            proof {
                assert forall|j: int| 0 <= j < i + 1 implies cell_views(values@)[j] == cell_value(
                    #[trigger] found[j],
                ) by {
                    if j < i {
                        assert(cell_views(values@)[j] == cell_views(before)[j]);
                    }
                }
            }
            i = i + 1;
        }
        proof {
            assert(cell_views(values@) =~= found.map_values(|cell: Seq<char>| cell_value(cell)));
        }
        CsvItem::Record(TextRecord { line, cells: values })
    }
}

/// Classifies one item of a CSV reader.
pub fn csv_item(
    record: Result<csv::StringRecord, CsvReadError>,
    field_count: usize,
) -> (item: CsvItem)
    ensures
        csv_item_is(record, field_count as nat, item),
{
    match record {
        Err(error) => {
            let line: u64 = match error.line {
                Some(line) => line,
                None => 0,
            };
            CsvItem::Rejected(
                RejectedRecord {
                    line,
                    code: MALFORMED_CSV_RECORD,
                    field: None,
                    source_field: None,
                    message: error.message,
                    record: json_null(),
                },
            )
        },
        Ok(record) => classify_cells(record_line(&record), record_cells(&record), field_count),
    }
}

/// The bytes of a line without its line feed and the carriage return before
/// it.
pub open spec fn line_content(bytes: Seq<u8>) -> Seq<u8> {
    let unfed = if bytes.len() > 0 && bytes.last() == 10u8 {
        bytes.drop_last()
    } else {
        bytes
    };
    if unfed.len() > 0 && unfed.last() == 13u8 {
        unfed.drop_last()
    } else {
        unfed
    }
}

/// What a text that is not blank is, given what parsing it as JSON gave: an
/// object is a record, and anything else is rejected with the text recovered.
pub open spec fn parsed_line_is(
    text: Seq<char>,
    parsed: Result<JsonTree, Seq<char>>,
    line_number: u64,
    line: JsonlLine,
) -> bool {
    match parsed {
        Ok(JsonTree::Object(entries)) => line matches JsonlLine::Record(record) && record.line
            == line_number && object_entries(record.object) == entries,
        Ok(_) => line matches JsonlLine::Rejected(rejection) && rejection@ == parse_rejection(
            line_number,
            MALFORMED_JSONL_RECORD@,
            "each JSONL record must be a JSON object"@,
            JsonTree::Text(text),
        ),
        Err(message) => line matches JsonlLine::Rejected(rejection) && rejection@
            == parse_rejection(
            line_number,
            MALFORMED_JSONL_RECORD@,
            message,
            JsonTree::Text(text),
        ),
    }
}

/// What a JSONL line is: bytes that are not UTF-8 are rejected with what can
/// be recovered of them; white space is blank; and any other text is what
/// parsing it makes of it.
pub open spec fn jsonl_line_is(bytes: Seq<u8>, line_number: u64, line: JsonlLine) -> bool {
    let content = line_content(bytes);
    let text = decode_utf8(content);
    if !valid_utf8(content) {
        line matches JsonlLine::Rejected(rejection) && rejection@ == parse_rejection(
            line_number,
            MALFORMED_JSONL_RECORD@,
            utf8_error_text(content),
            JsonTree::Text(lossy_text(content)),
        )
    } else if blank(text) {
        line is Blank
    } else {
        parsed_line_is(text, parsed_json(text), line_number, line)
    }
}

/// The rejection of a line, with what was recovered of it.
pub fn rejected_line(line: u64, message: String, recovered: String) -> (rejected: JsonlLine)
    ensures
        rejected matches JsonlLine::Rejected(rejection) && rejection@ == parse_rejection(
            line,
            MALFORMED_JSONL_RECORD@,
            message@,
            JsonTree::Text(recovered@),
        ),
{
    JsonlLine::Rejected(
        RejectedRecord {
            line,
            code: MALFORMED_JSONL_RECORD,
            field: None,
            source_field: None,
            message,
            record: json_text(recovered),
        },
    )
}

/// Classifies a text by what parsing it as JSON gave.
pub fn classify_parsed(text: &str, parsed: Result<Value, String>, line_number: u64) -> (line:
    JsonlLine)
    ensures
        parsed_line_is(
            text@,
            match parsed {
                Ok(value) => Ok(json_tree(value)),
                Err(message) => Err(message@),
            },
            line_number,
            line,
        ),
{
    match parsed {
        Ok(value) => match into_object(value) {
            Some(object) => JsonlLine::Record(JsonRecord { line: line_number, object }),
            None => rejected_line(
                line_number,
                "each JSONL record must be a JSON object".to_owned(),
                text.to_owned(),
            ),
        },
        Err(message) => rejected_line(line_number, message, text.to_owned()),
    }
}

/// Classifies one JSONL line, given with its line end.
pub fn jsonl_line_record(line_bytes: &[u8], line_number: u64) -> (line: JsonlLine)
    ensures
        jsonl_line_is(line_bytes@, line_number, line),
{
    let mut content = line_bytes;
    let fed: usize = content.len();
    if fed > 0 && content[fed - 1] == 10u8 {
        content = vstd::slice::slice_subrange(content, 0, fed - 1);
        proof {
            assert(content@ =~= line_bytes@.drop_last());
        }
    }
    let ghost unfed = content@;
    let returned: usize = content.len();
    if returned > 0 && content[returned - 1] == 13u8 {
        content = vstd::slice::slice_subrange(content, 0, returned - 1);
        proof {
            assert(content@ =~= unfed.drop_last());
        }
    }
    proof {
        assert(content@ == line_content(line_bytes@));
    }
    let text = match utf8_text(content) {
        Ok(text) => text,
        Err(message) => {
            return rejected_line(line_number, message, recovered_text(content));
        },
    };
    proof {
        encode_utf8_decode_utf8(text@);
        assert(text@ == decode_utf8(content@));
    }
    if is_blank(text) {
        return JsonlLine::Blank;
    }
    classify_parsed(text, parse_json(text), line_number)
}

pub const FNV_OFFSET_BASIS: u64 = 0xcbf2_9ce4_8422_2325;

pub const FNV_PRIME: u64 = 0x0000_0100_0000_01b3;

/// The FNV-1a hash after folding bytes into it.
pub open spec fn fnv1a(hash: u64, bytes: Seq<u8>) -> u64
    decreases bytes.len(),
{
    if bytes.len() == 0 {
        hash
    } else {
        let before = fnv1a(hash, bytes.drop_last());
        (before ^ (bytes.last() as u64)).wrapping_mul(FNV_PRIME)
    }
}

/// The running hash of the bytes of a source. It guards against change, not
/// against malice. A source has one state, which whoever needs it shares.
#[derive(Debug)]
pub struct HashState {
    hash: u64,
}

impl HashState {
    /// The hash so far.
    pub closed spec fn hash(self) -> u64 {
        self.hash
    }

    /// The hash of no bytes.
    pub fn new() -> (state: HashState)
        ensures
            state.hash() == fnv1a(FNV_OFFSET_BASIS, seq![]),
    {
        HashState { hash: FNV_OFFSET_BASIS }
    }

    /// Folds bytes into the hash.
    pub fn update(&mut self, bytes: &[u8])
        ensures
            final(self).hash() == fnv1a(old(self).hash(), bytes@),
    {
        let start: u64 = self.hash;
        let mut hash: u64 = start;
        let mut i: usize = 0;
        while i < bytes.len()
            invariant
                i <= bytes.len(),
                hash == fnv1a(start, bytes@.take(i as int)),
            decreases bytes.len() - i,
        {
            proof {
                let taken = bytes@.take(i as int + 1);
                assert(taken.drop_last() =~= bytes@.take(i as int));
                assert(taken.last() == bytes@[i as int]);
            }
            hash = (hash ^ (bytes[i] as u64)).wrapping_mul(FNV_PRIME);
            i = i + 1;
        }
        proof {
            assert(bytes@.take(i as int) =~= bytes@);
        }
        self.hash = hash;
    }

    /// The hash so far.
    pub fn value(&self) -> (hash: u64)
        ensures
            hash == self.hash(),
    {
        self.hash
    }
}

/// Folding bytes piece by piece, however a reader hands them out, gives the
/// hash of all of them.
pub proof fn law_hash_ignores_read_sizes(hash: u64, first: Seq<u8>, second: Seq<u8>)
    ensures
        fnv1a(fnv1a(hash, first), second) == fnv1a(hash, first + second),
    decreases second.len(),
{
    if second.len() == 0 {
        assert(first + second =~= first);
    } else {
        law_hash_ignores_read_sizes(hash, first, second.drop_last());
        assert((first + second).drop_last() =~= first + second.drop_last());
    }
}

/// A CSV record with as many cells as the header has fields is kept, and every cell
/// with it: where the cell is not empty the value is exactly its characters, and
/// where it is empty there is no value. A record with any other number of cells is
/// rejected, with all of its cells.
pub proof fn law_cells_become_the_values_of_a_record(
    line: Option<u64>,
    cells: Vec<String>,
    field_count: usize,
    item: CsvItem,
)
    requires
        call_ensures(classify_cells, (line, cells, field_count), item),
    ensures
        item is Record <==> cells@.len() == field_count,
        item matches CsvItem::Record(record) ==> {
            &&& line matches Some(known) ==> record.line == known
            &&& line is None ==> record.line == 0
            &&& record.cells@.len() == cells@.len()
            &&& forall|i: int|
                #![trigger record.cells@[i]]
                0 <= i < cells@.len() && cells@[i]@.len() == 0 ==> record.cells@[i] is None
            &&& forall|i: int|
                #![trigger record.cells@[i]]
                0 <= i < cells@.len() && cells@[i]@.len() > 0 ==> record.cells@[i] is Some
                    && record.cells@[i]->0@ == cells@[i]@
        },
        item matches CsvItem::Rejected(rejection) ==> {
            &&& line matches Some(known) ==> rejection.line == known
            &&& line is None ==> rejection.line == 0
            &&& rejection.code@ == "malformed_csv_record"@
            &&& rejection.field is None && rejection.source_field is None
            &&& rejection.message@ == "expected "@ + decimal(field_count as nat)
                + " fields, found "@ + decimal(cells@.len())
            &&& json_tree(rejection.record) == JsonTree::Array(
                Seq::new(cells@.len(), |i: int| JsonTree::Text(cells@[i]@)),
            )
        },
{
    let found = texts(cells@);
    match item {
        CsvItem::Record(record) => {
            let views = cell_views(record.cells@);
            let values = found.map_values(|cell: Seq<char>| cell_value(cell));
            assert(views.len() == record.cells@.len());
            assert(values.len() == cells@.len());
            assert forall|i: int| #![trigger record.cells@[i]] 0 <= i < cells@.len() implies views[i]
                == cell_value(cells@[i]@) by {
                assert(values[i] == cell_value(found[i]));
            }
            assert forall|i: int|
                #![trigger record.cells@[i]]
                0 <= i < cells@.len() && cells@[i]@.len() == 0 implies record.cells@[i] is None by {
                assert(views[i] == cell_value(cells@[i]@));
            }
            assert forall|i: int|
                #![trigger record.cells@[i]]
                0 <= i < cells@.len() && cells@[i]@.len() > 0 implies record.cells@[i] is Some
                && record.cells@[i]->0@ == cells@[i]@ by {
                assert(views[i] == cell_value(cells@[i]@));
            }
        },
        CsvItem::Rejected(rejection) => {
            assert(rejection@.field is None && rejection@.source_field is None);
            assert(found.map_values(|cell: Seq<char>| JsonTree::Text(cell)) =~= Seq::new(
                cells@.len(),
                |i: int| JsonTree::Text(cells@[i]@),
            ));
        },
    }
}

/// A record that the CSV reader could not read is rejected with the reader's
/// message, at the line it names, and with nothing recovered.
pub proof fn law_unreadable_csv_record_is_rejected(
    error: CsvReadError,
    field_count: usize,
    item: CsvItem,
)
    requires
        call_ensures(
            csv_item,
            (Err::<csv::StringRecord, CsvReadError>(error), field_count),
            item,
        ),
    ensures
        item matches CsvItem::Rejected(rejection) && {
            &&& error.line matches Some(known) ==> rejection.line == known
            &&& error.line is None ==> rejection.line == 0
            &&& rejection.code@ == "malformed_csv_record"@
            &&& rejection.field is None && rejection.source_field is None
            &&& rejection.message@ == error.message@
            &&& json_tree(rejection.record) == JsonTree::Null
        },
{
    match item {
        CsvItem::Rejected(rejection) => {
            assert(rejection@.field is None && rejection@.source_field is None);
        },
        _ => {},
    }
}

/// A record that the CSV reader read is what its cells are, at the line where it
/// starts: neither is lost or made up on the way.
pub proof fn law_csv_record_is_what_its_cells_are(
    record: csv::StringRecord,
    field_count: usize,
    item: CsvItem,
)
    requires
        call_ensures(
            csv_item,
            (Ok::<csv::StringRecord, CsvReadError>(record), field_count),
            item,
        ),
    ensures
        ({
            let cells = csv_cells(record);
            &&& item is Record <==> cells.len() == field_count
            &&& item matches CsvItem::Record(kept) ==> {
                &&& csv_line(record) matches Some(known) ==> kept.line == known
                &&& kept.cells@.len() == cells.len()
                &&& forall|i: int|
                    #![trigger kept.cells@[i]]
                    0 <= i < cells.len() ==> (kept.cells@[i] is None <==> cells[i].len() == 0) && (
                    kept.cells@[i] matches Some(text) ==> text@ == cells[i])
            }
            &&& item matches CsvItem::Rejected(rejection) ==> {
                &&& csv_line(record) matches Some(known) ==> rejection.line == known
                &&& rejection.code@ == "malformed_csv_record"@
                &&& json_tree(rejection.record) == JsonTree::Array(
                    Seq::new(cells.len(), |i: int| JsonTree::Text(cells[i])),
                )
            }
        }),
{
    let cells = csv_cells(record);
    match item {
        CsvItem::Record(kept) => {
            let views = cell_views(kept.cells@);
            let values = cells.map_values(|cell: Seq<char>| cell_value(cell));
            assert(views.len() == kept.cells@.len());
            assert forall|i: int| #![trigger kept.cells@[i]] 0 <= i < cells.len() implies (
            kept.cells@[i] is None <==> cells[i].len() == 0) && (kept.cells@[i] matches Some(text)
                ==> text@ == cells[i]) by {
                assert(values[i] == cell_value(cells[i]));
                assert(views[i] == values[i]);
            }
        },
        CsvItem::Rejected(rejection) => {
            assert(cells.map_values(|cell: Seq<char>| JsonTree::Text(cell)) =~= Seq::new(
                cells.len(),
                |i: int| JsonTree::Text(cells[i]),
            ));
        },
    }
}

/// A JSONL line is judged by its content, whatever ends the line: nothing, a line
/// feed, a carriage return, or both. Content that is no UTF-8 is rejected, content
/// of white space is passed over, a JSON object is a record with just its entries,
/// and anything else is rejected with its text.
pub proof fn law_jsonl_line_is_its_content(
    content: Seq<u8>,
    line_bytes: &[u8],
    line_number: u64,
    line: JsonlLine,
)
    requires
        call_ensures(jsonl_line_record, (line_bytes, line_number), line),
        content.len() > 0 ==> content.last() != 10u8 && content.last() != 13u8,
        line_bytes@ == content || line_bytes@ == content.push(10u8) || line_bytes@ == content.push(
            13u8,
        ) || line_bytes@ == content.push(13u8).push(10u8),
    ensures
        !valid_utf8(content) ==> (line matches JsonlLine::Rejected(rejection) && {
            &&& rejection.line == line_number
            &&& rejection.code@ == "malformed_jsonl_record"@
            &&& rejection.message@ == utf8_error_text(content)
            &&& json_tree(rejection.record) == JsonTree::Text(lossy_text(content))
        }),
        valid_utf8(content) ==> {
            let text = decode_utf8(content);
            &&& blank(text) <==> line is Blank
            &&& line matches JsonlLine::Record(record) ==> {
                &&& record.line == line_number
                &&& parsed_json(text) == Ok::<JsonTree, Seq<char>>(
                    JsonTree::Object(object_entries(record.object)),
                )
            }
            &&& line matches JsonlLine::Rejected(rejection) ==> {
                &&& rejection.line == line_number
                &&& rejection.code@ == "malformed_jsonl_record"@
                &&& rejection.field is None && rejection.source_field is None
                &&& json_tree(rejection.record) == JsonTree::Text(text)
                &&& parsed_json(text) matches Err(message) ==> rejection.message@ == message
                &&& parsed_json(text) matches Ok(value) ==> !(value is Object)
                    && rejection.message@ == "each JSONL record must be a JSON object"@
            }
        },
{
    if content.len() == 0 {
        assert(content =~= seq![]);
    }
    assert(content.push(10u8).drop_last() =~= content);
    assert(content.push(13u8).drop_last() =~= content);
    assert(content.push(13u8).push(10u8).drop_last() =~= content.push(13u8));
    assert(line_content(line_bytes@) == content);
    match line {
        JsonlLine::Rejected(rejection) => {
            assert(rejection@.line == line_number);
            assert(rejection@.field is None && rejection@.source_field is None);
        },
        _ => {},
    }
}

/// The hash starts at the FNV-1a offset basis and is what was folded into it.
/// Folding nothing changes nothing, and one more byte is folded in by the rule of
/// FNV-1a, modulo 2 to the 64.
pub proof fn law_hash_is_fnv1a(
    fresh: HashState,
    state: &mut HashState,
    bytes: &[u8],
    value: u64,
    hash: u64,
    front: Seq<u8>,
    byte: u8,
)
    requires
        call_ensures(HashState::new, (), fresh),
        call_ensures(HashState::value, (&fresh,), value),
        call_ensures(HashState::update, (state, bytes), ()),
    ensures
        value == 0xcbf2_9ce4_8422_2325u64 && fresh.hash() == value,
        final(state).hash() == fnv1a(old(state).hash(), bytes@),
        fnv1a(hash, Seq::empty()) == hash,
        fnv1a(hash, front.push(byte)) == (fnv1a(hash, front) ^ (byte as u64)).wrapping_mul(
            0x0000_0100_0000_01b3u64,
        ),
{
    assert(front.push(byte).drop_last() =~= front);
}

/// A parsed line is a record exactly where it is a JSON object, with the object and
/// its line. Anything else is rejected at its line with the parser's message, or with
/// what a record must be, and the text is kept.
pub proof fn law_only_objects_are_records(
    text: &str,
    parsed: Result<Value, String>,
    line_number: u64,
    line: JsonlLine,
    message: String,
    recovered: String,
    rejected: JsonlLine,
)
    requires
        call_ensures(classify_parsed, (text, parsed, line_number), line),
        call_ensures(rejected_line, (line_number, message, recovered), rejected),
    ensures
        !(line is Blank),
        line is Record <==> parsed is Ok && json_tree(parsed->Ok_0) is Object,
        line matches JsonlLine::Record(record) ==> record.line == line_number && JsonTree::Object(
            object_entries(record.object),
        ) == json_tree(parsed->Ok_0),
        line matches JsonlLine::Rejected(rejection) ==> {
            &&& rejection.line == line_number
            &&& rejection.code@ == "malformed_jsonl_record"@
            &&& rejection.field is None && rejection.source_field is None
            &&& parsed matches Err(error) ==> rejection.message@ == error@
            &&& parsed is Ok ==> rejection.message@ == "each JSONL record must be a JSON object"@
            &&& json_tree(rejection.record) == JsonTree::Text(text@)
        },
        rejected matches JsonlLine::Rejected(rejection) && rejection.line == line_number
            && rejection.code@ == "malformed_jsonl_record"@ && rejection.message@ == message@
            && rejection.field is None && rejection.source_field is None && json_tree(
            rejection.record,
        ) == JsonTree::Text(recovered@),
{
    if let JsonlLine::Rejected(rejection) = line {
        assert(rejection@.code == rejection.code@ && rejection@.message == rejection.message@);
    }
    if let JsonlLine::Rejected(rejection) = rejected {
        assert(rejection@.code == rejection.code@ && rejection@.message == rejection.message@);
    }
}

} // verus!
