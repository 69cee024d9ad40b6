//! The DuckDB destination: the statements its sessions run, what a session
//! has written, and how its failures report that.
use crate::destination::{
    append_abandoned, facts_of, nothing_abandoned, unchanged_destination, write_failed,
    AbandonedWrite, DestinationWrite, DestinationWriteFacts, DestinationWriteFailure,
    MergeWriteCounts, Transience,
};
use crate::failure::{failing, LoadFailure};
use crate::text::{
    contains_text, decimal, decimal_text, separated, separated_text, texts,
};
use vstd::prelude::*;
use vstd::std_specs::iter::IteratorSpec;
use vstd::string::*;

verus! {

/// A name with every double quote doubled.
pub open spec fn doubled_quotes(name: Seq<char>) -> Seq<char>
    decreases name.len(),
{
    if name.len() == 0 {
        name
    } else if name.last() == '"' {
        doubled_quotes(name.drop_last()).push('"').push('"')
    } else {
        doubled_quotes(name.drop_last()).push(name.last())
    }
}

/// A name as a quoted identifier.
pub open spec fn quoted(name: Seq<char>) -> Seq<char> {
    seq!['"'] + doubled_quotes(name) + seq!['"']
}

/// Quotes an identifier.
pub fn quote_identifier(name: &str) -> (identifier: String)
    ensures
        identifier@ == quoted(name@),
{
    let mut identifier = String::new();
    identifier.push('"');
    let mut rest = name.chars();
    let ghost mut i: int = 0;
    proof {
        assert(name@.take(0) =~= seq![]);
        assert(identifier@ =~= seq!['"'] + doubled_quotes(name@.take(0)));
    }
    loop
        invariant
            0 <= i <= name@.len(),
            rest.remaining() == name@.skip(i),
            rest.obeys_prophetic_iter_laws(),
            rest.decrease() is Some,
            identifier@ == seq!['"'] + doubled_quotes(name@.take(i)),
        ensures
            i == name@.len(),
        decreases rest.decrease()->0,
    {
        match rest.next() {
            None => {
                break;
            },
            Some(c) => {
                proof {
                    assert(c == name@[i]);
                    assert(name@.take(i + 1).drop_last() =~= name@.take(i));
                    assert(name@.take(i + 1).last() == c);
                }
                if c == '"' {
                    identifier.push('"');
                }
                identifier.push(c);
                proof {
                    assert(identifier@ =~= seq!['"'] + doubled_quotes(name@.take(i + 1)));
                    i = i + 1;
                }
            },
        }
    }
    identifier.push('"');
    proof {
        assert(name@.take(i) =~= name@);
        assert(identifier@ =~= quoted(name@));
    }
    identifier
}

proof fn lemma_doubled_quotes_is_injective(a: Seq<char>, b: Seq<char>)
    requires
        doubled_quotes(a) == doubled_quotes(b),
    ensures
        a == b,
    decreases a.len() + b.len(),
{
    if a.len() == 0 || b.len() == 0 {
        assert(doubled_quotes(a).len() == doubled_quotes(b).len());
        if a.len() > 0 {
            assert(doubled_quotes(a).len() > 0);
        }
        if b.len() > 0 {
            assert(doubled_quotes(b).len() > 0);
        }
        assert(a =~= b);
    } else {
        let shorter_a = a.drop_last();
        let shorter_b = b.drop_last();
        assert(doubled_quotes(a).last() == a.last());
        assert(doubled_quotes(b).last() == b.last());
        if a.last() == '"' {
            assert(doubled_quotes(a).drop_last().drop_last() =~= doubled_quotes(shorter_a));
            assert(doubled_quotes(b).drop_last().drop_last() =~= doubled_quotes(shorter_b));
        } else {
            assert(doubled_quotes(a).drop_last() =~= doubled_quotes(shorter_a));
            assert(doubled_quotes(b).drop_last() =~= doubled_quotes(shorter_b));
        }
        lemma_doubled_quotes_is_injective(shorter_a, shorter_b);
        assert(shorter_a.push(a.last()) =~= a);
        assert(shorter_b.push(b.last()) =~= b);
    }
}

/// Two different names are never quoted to the same identifier.
pub proof fn law_quoted_identifiers_differ(a: Seq<char>, b: Seq<char>)
    requires
        quoted(a) == quoted(b),
    ensures
        a == b,
{
    let inner_a = doubled_quotes(a);
    let inner_b = doubled_quotes(b);
    assert(quoted(a).len() == inner_a.len() + 2);
    assert(quoted(b).len() == inner_b.len() + 2);
    assert(quoted(a).subrange(1, quoted(a).len() - 1) =~= inner_a);
    assert(quoted(b).subrange(1, quoted(b).len() - 1) =~= inner_b);
    lemma_doubled_quotes_is_injective(a, b);
}

/// How many double quotes a text holds.
pub open spec fn quotes_in(text: Seq<char>) -> nat
    decreases text.len(),
{
    if text.len() == 0 {
        0
    } else {
        quotes_in(text.drop_last()) + if text.last() == '"' {
            1nat
        } else {
            0
        }
    }
}

/// A text with each pair of double quotes read as one.
pub open spec fn single_quotes(text: Seq<char>) -> Seq<char>
    decreases text.len(),
{
    if text.len() == 0 {
        text
    } else if text.len() >= 2 && text.last() == '"' && text[text.len() - 2] == '"' {
        single_quotes(text.take(text.len() - 2)).push('"')
    } else {
        single_quotes(text.drop_last()).push(text.last())
    }
}

/// Reading a quoted identifier gives back the name: without the quotes around
/// it, and with each doubled quote read as one. It is longer than the name by
/// those two quotes and one for each quote of the name.
pub proof fn law_quoted_name_reads_back(name: Seq<char>)
    ensures
        quoted(name).first() == '"',
        quoted(name).last() == '"',
        single_quotes(quoted(name).subrange(1, quoted(name).len() - 1)) == name,
        quoted(name).len() == name.len() + quotes_in(name) + 2,
{
    lemma_doubled_quotes_read_back(name);
    assert(quoted(name).subrange(1, quoted(name).len() - 1) =~= doubled_quotes(name));
}

proof fn lemma_doubled_quotes_read_back(name: Seq<char>)
    ensures
        single_quotes(doubled_quotes(name)) == name,
        doubled_quotes(name).len() == name.len() + quotes_in(name),
    decreases name.len(),
{
    if name.len() > 0 {
        let shorter = name.drop_last();
        lemma_doubled_quotes_read_back(shorter);
        let doubled = doubled_quotes(name);
        if name.last() == '"' {
            assert(doubled.take(doubled.len() - 2) =~= doubled_quotes(shorter));
        } else {
            assert(doubled.drop_last() =~= doubled_quotes(shorter));
        }
        assert(shorter.push(name.last()) =~= name);
    }
}

/// The length of the run of double quotes that ends a text.
pub open spec fn closing_quotes(text: Seq<char>) -> nat
    decreases text.len(),
{
    if text.len() > 0 && text.last() == '"' {
        closing_quotes(text.drop_last()) + 1
    } else {
        0
    }
}

/// No part of a name ends its identifier early: within the quotes every run
/// of double quotes is even, up to any point at which the name can be cut.
pub proof fn law_name_cannot_close_its_quotes(name: Seq<char>)
    ensures
        closing_quotes(doubled_quotes(name)) % 2 == 0,
        closing_quotes(doubled_quotes(name)) == 2 * closing_quotes(name),
    decreases name.len(),
{
    if name.len() > 0 {
        law_name_cannot_close_its_quotes(name.drop_last());
        if name.last() == '"' {
            let inner = doubled_quotes(name.drop_last());
            assert(inner.push('"').push('"').drop_last() =~= inner.push('"'));
            assert(inner.push('"').drop_last() =~= inner);
            assert(closing_quotes(inner.push('"')) == closing_quotes(inner) + 1);
            assert(closing_quotes(inner.push('"').push('"')) == closing_quotes(inner) + 2);
        }
    }
}

/// The table a session addresses.
#[derive(Debug)]
pub struct DuckDbTable {
    pub path: String,
    pub dataset: String,
}

impl DuckDbTable {
    /// Where the table is, in words.
    pub open spec fn place(self) -> Seq<char> {
        self.dataset@ + " in "@ + self.path@
    }

    fn place_text(&self) -> (place: String)
        ensures
            place@ == self.place(),
    {
        self.dataset.clone().concat(" in ").concat(self.path.as_str())
    }

    /// The table's identifier.
    pub fn quoted_dataset(&self) -> (identifier: String)
        ensures
            identifier@ == quoted(self.dataset@),
    {
        quote_identifier(self.dataset.as_str())
    }

    /// The statement that shows the table's columns.
    pub fn inspect_statement(&self) -> (statement: String)
        ensures
            statement@ == "SELECT * FROM "@ + quoted(self.dataset@) + " LIMIT 0"@,
    {
        "SELECT * FROM ".to_owned().concat(self.quoted_dataset().as_str()).concat(" LIMIT 0")
    }

    /// The failure of showing the table's columns before an operation.
    pub fn inspect_failure(&self, operation: &str, error: &str) -> (failure: LoadFailure)
        ensures
            failure@ == write_failed(
                "failed to inspect DuckDB table "@ + self.place() + " before "@ + operation@ + ": "@
                    + error@,
            ),
    {
        LoadFailure::new(
            "destination_write_failed",
            "failed to inspect DuckDB table ".to_owned().concat(self.place_text().as_str()).concat(
                " before ",
            ).concat(operation).concat(": ").concat(error),
        )
    }

    /// The failure of opening the database.
    pub fn open_failure(&self, error: &str) -> (failure: LoadFailure)
        ensures
            failure@ == write_failed(
                "failed to open DuckDB database "@ + self.path@ + ": "@ + error@,
            ),
    {
        LoadFailure::new(
            "destination_write_failed",
            "failed to open DuckDB database ".to_owned().concat(self.path.as_str()).concat(
                ": ",
            ).concat(error),
        )
    }

    /// The failure of closing the database.
    pub fn close_failure(&self, error: &str) -> (failure: LoadFailure)
        ensures
            failure@ == write_failed(
                "failed to close DuckDB database "@ + self.path@ + ": "@ + error@,
            ),
    {
        LoadFailure::new(
            "destination_write_failed",
            "failed to close DuckDB database ".to_owned().concat(self.path.as_str()).concat(
                ": ",
            ).concat(error),
        )
    }

    /// The failure of putting records under the table's schema for an operation.
    pub fn align_failure(&self, operation: &str, error: &str) -> (failure: LoadFailure)
        ensures
            failure@ == write_failed(
                "failed to align "@ + operation@ + " records with DuckDB destination "@
                    + self.place() + ": "@ + error@,
            ),
    {
        LoadFailure::new(
            "destination_write_failed",
            "failed to align ".to_owned().concat(operation).concat(
                " records with DuckDB destination ",
            ).concat(self.place_text().as_str()).concat(": ").concat(error),
        )
    }

    /// The failure of opening the transaction of a session.
    pub fn begin_failure(&self, operation: &str, error: &str) -> (failure: LoadFailure)
        ensures
            failure@ == write_failed(
                "failed to begin the DuckDB "@ + operation@ + " transaction in "@ + self.path@
                    + ": "@ + error@,
            ),
    {
        LoadFailure::new(
            "destination_write_failed",
            "failed to begin the DuckDB ".to_owned().concat(operation).concat(
                " transaction in ",
            ).concat(self.path.as_str()).concat(": ").concat(error),
        )
    }
}

/// The failure of records whose columns do not match the table's.
pub fn duckdb_schema_mismatch(table: &DuckDbTable, operation: &str) -> (failure: LoadFailure)
    ensures
        failure@ == write_failed(
            operation@ + " schema does not match DuckDB destination "@ + table.place(),
        ),
{
    LoadFailure::new(
        "destination_write_failed",
        operation.to_owned().concat(" schema does not match DuckDB destination ").concat(
            table.place_text().as_str(),
        ),
    )
}

/// What a full refresh has written inside its open transaction. Nothing of it
/// is visible before the terminal commit.
pub struct DuckDbFullRefreshSession {
    pub written_chunks: u64,
    pub written_records: u64,
}

/// A failure within the replacing transaction.
pub open spec fn replace_failed(message: Seq<char>, raised: DestinationWriteFailure) -> bool {
    &&& raised == (DestinationWriteFailure {
        facts: facts_of("atomic", Some("transactional_replace")),
        ..unchanged_destination(raised.failure)
    })
    &&& raised.failure@ == write_failed(message)
}

impl DuckDbFullRefreshSession {
    /// A session that has written nothing.
    pub fn new() -> (session: DuckDbFullRefreshSession)
        ensures
            session.written_chunks == 0,
            session.written_records == 0,
    {
        DuckDbFullRefreshSession { written_chunks: 0, written_records: 0 }
    }

    /// The statement that writes the next chunk: the first one replaces the
    /// table, the others extend it.
    pub open spec fn statement_view(self, table: DuckDbTable) -> Seq<char> {
        if self.written_chunks == 0 {
            "CREATE OR REPLACE TABLE "@ + quoted(table.dataset@) + " AS SELECT * FROM arrow(?, ?)"@
        } else {
            "INSERT INTO "@ + quoted(table.dataset@) + " SELECT * FROM arrow(?, ?)"@
        }
    }

    /// The statement that writes the next chunk.
    pub fn chunk_statement(&self, table: &DuckDbTable) -> (statement: String)
        ensures
            statement@ == self.statement_view(*table),
    {
        if self.written_chunks == 0 {
            "CREATE OR REPLACE TABLE ".to_owned().concat(table.quoted_dataset().as_str()).concat(
                " AS SELECT * FROM arrow(?, ?)",
            )
        } else {
            "INSERT INTO ".to_owned().concat(table.quoted_dataset().as_str()).concat(
                " SELECT * FROM arrow(?, ?)",
            )
        }
    }

    /// The failure of writing a chunk.
    pub fn replace_failure(&self, table: &DuckDbTable, error: &str) -> (raised:
        DestinationWriteFailure)
        ensures
            replace_failed(
                "failed to replace DuckDB table "@ + table.place() + ": "@ + error@,
                raised,
            ),
    {
        DestinationWriteFailure::atomic(
            LoadFailure::new(
                "destination_write_failed",
                "failed to replace DuckDB table ".to_owned().concat(
                    table.place_text().as_str(),
                ).concat(": ").concat(error),
            ),
            "transactional_replace",
            0,
        )
    }

    /// Writes a chunk: `insert` runs the statement for it.
    pub fn write_chunk<N: FnOnce(&str) -> Result<(), String>>(
        &self,
        table: &DuckDbTable,
        insert: N,
    ) -> (written: Result<(), DestinationWriteFailure>)
        requires
            forall|statement: &str|
                statement@ == self.statement_view(*table) ==> #[trigger] insert.requires(
                    (statement,),
                ),
        ensures
            exists|statement: &str, inserted: Result<(), String>|
                {
                    &&& #[trigger] insert.ensures((statement,), inserted)
                    &&& statement@ == self.statement_view(*table)
                    &&& match inserted {
                        Ok(_) => written is Ok,
                        Err(error) => written matches Err(raised) && replace_failed(
                            "failed to replace DuckDB table "@ + table.place() + ": "@ + error@,
                            raised,
                        ),
                    }
                },
    {
        let text = self.chunk_statement(table);
        let statement = text.as_str();
        let inserted = insert(statement);
        proof {
            assert(insert.ensures((statement,), inserted));
        }
        match inserted {
            Ok(_) => Ok(()),
            Err(error) => Err(self.replace_failure(table, error.as_str())),
        }
    }

    /// Counts a written chunk.
    pub fn chunk_written(&mut self, rows: u64)
        requires
            old(self).written_chunks < u64::MAX,
            old(self).written_records + rows <= u64::MAX,
        ensures
            final(self).written_chunks == old(self).written_chunks + 1,
            final(self).written_records == old(self).written_records + rows,
    {
        self.written_chunks = self.written_chunks + 1;
        self.written_records = self.written_records + rows;
    }

    /// The failure of the terminal commit: nothing was written.
    pub fn commit_failure(&self, table: &DuckDbTable, error: &str) -> (raised:
        DestinationWriteFailure)
        ensures
            replace_failed(
                "failed to commit the DuckDB replace of table "@ + table.place() + ": "@ + error@,
                raised,
            ),
    {
        DestinationWriteFailure::atomic(
            LoadFailure::new(
                "destination_write_failed",
                "failed to commit the DuckDB replace of table ".to_owned().concat(
                    table.place_text().as_str(),
                ).concat(": ").concat(error),
            ),
            "transactional_replace",
            0,
        )
    }

    /// How the session ends after its commit, given how closing the database
    /// went: a failure to close reports what was committed.
    pub open spec fn ends_in(
        self,
        table: DuckDbTable,
        closed: Result<(), String>,
        write: Result<DestinationWrite, DestinationWriteFailure>,
    ) -> bool {
        match closed {
            Ok(_) => write == Ok::<_, DestinationWriteFailure>(
                DestinationWrite {
                    bytes_written: None,
                    facts: facts_of("atomic", Some("transactional_replace")),
                },
            ),
            Err(error) => write matches Err(raised) && raised == (DestinationWriteFailure {
                failure: raised.failure,
                facts: facts_of("atomic", Some("transactional_replace")),
                written_records: self.written_records,
                committed_chunks: self.written_chunks,
                transience: Transience::Terminal,
            }) && raised.failure@ == write_failed(
                "failed to close DuckDB database "@ + table.path@ + ": "@ + error@,
            ),
        }
    }

    /// Commits the session: `execute` commits the transaction, and only once
    /// that went well `close` closes the database.
    pub fn commit<X: FnOnce(&str) -> Result<(), String>, Z: FnOnce() -> Result<(), String>>(
        self,
        table: &DuckDbTable,
        execute: X,
        close: Z,
    ) -> (write: Result<DestinationWrite, DestinationWriteFailure>)
        requires
            forall|statement: &str|
                statement@ == "COMMIT"@ ==> #[trigger] execute.requires((statement,)),
            forall|statement: &str, executed: Result<(), String>| #[trigger]
                execute.ensures((statement,), executed) && statement@ == "COMMIT"@ && executed is Ok
                    ==> close.requires(()),
        ensures
            exists|statement: &str, executed: Result<(), String>|
                {
                    &&& #[trigger] execute.ensures((statement,), executed)
                    &&& statement@ == "COMMIT"@
                    &&& match executed {
                        Err(error) => write matches Err(raised) && replace_failed(
                            "failed to commit the DuckDB replace of table "@ + table.place() + ": "@
                                + error@,
                            raised,
                        ),
                        Ok(_) => exists|closed: Result<(), String>|
                            #[trigger] close.ensures((), closed) && self.ends_in(
                                *table,
                                closed,
                                write,
                            ),
                    }
                },
    {
        let statement = "COMMIT";
        let executed = execute(statement);
        proof {
            assert(execute.ensures((statement,), executed));
        }
        if let Err(error) = executed {
            return Err(self.commit_failure(table, error.as_str()));
        }
        let closed = close();
        proof {
            assert(close.ensures((), closed));
        }
        self.committed(table, closed)
    }

    /// Ends the session after its commit, given how closing the database went.
    pub fn committed(self, table: &DuckDbTable, closed: Result<(), String>) -> (write: Result<
        DestinationWrite,
        DestinationWriteFailure,
    >)
        ensures
            self.ends_in(*table, closed, write),
    {
        match closed {
            Ok(_) => Ok(
                DestinationWrite {
                    bytes_written: None,
                    facts: DestinationWriteFacts::atomic("transactional_replace"),
                },
            ),
            Err(error) => Err(
                DestinationWriteFailure {
                    failure: table.close_failure(error.as_str()),
                    facts: DestinationWriteFacts::atomic("transactional_replace"),
                    written_records: self.written_records,
                    committed_chunks: self.written_chunks,
                    transience: Transience::Terminal,
                },
            ),
        }
    }

    /// Ends the session without a commit: the transaction is rolled back.
    pub fn abandon(self) -> (abandoned: AbandonedWrite)
        ensures
            abandoned == nothing_abandoned(),
    {
        AbandonedWrite {
            committed_chunks: 0,
            written_records: 0,
            facts: DestinationWriteFacts::not_applicable(),
        }
    }
}

/// The statement that appends a chunk to a table.
pub open spec fn append_statement(table: DuckDbTable) -> Seq<char> {
    "INSERT INTO "@ + quoted(table.dataset@) + " BY NAME SELECT * FROM arrow(?, ?)"@
}

/// What an append session has committed, chunk by chunk.
pub struct DuckDbAppendSession {
    pub committed_chunks: u64,
    pub written_records: u64,
}

impl DuckDbAppendSession {
    /// A session that has committed nothing.
    pub fn new() -> (session: DuckDbAppendSession)
        ensures
            session.committed_chunks == 0,
            session.written_records == 0,
    {
        DuckDbAppendSession { committed_chunks: 0, written_records: 0 }
    }

    /// A failure of this session that reports what it has committed.
    pub open spec fn reporting(self, failure: LoadFailure) -> DestinationWriteFailure {
        DestinationWriteFailure {
            failure,
            facts: facts_of("best_effort", Some("insert")),
            written_records: self.written_records,
            committed_chunks: self.committed_chunks,
            transience: Transience::Terminal,
        }
    }

    /// A failure of a chunk before it was written: once a chunk has been
    /// committed, the destination has changed, and the failure says so.
    pub open spec fn failing_before_write(self, failure: LoadFailure) -> DestinationWriteFailure {
        if self.committed_chunks > 0 {
            self.reporting(failure)
        } else {
            unchanged_destination(failure)
        }
    }

    /// The failure of a chunk before it was written.
    pub fn chunk_failure(&self, failure: LoadFailure) -> (raised: DestinationWriteFailure)
        ensures
            raised == self.failing_before_write(failure),
    {
        if self.committed_chunks > 0 {
            DestinationWriteFailure {
                failure,
                facts: DestinationWriteFacts::best_effort("insert"),
                written_records: self.written_records,
                committed_chunks: self.committed_chunks,
                transience: Transience::Terminal,
            }
        } else {
            DestinationWriteFailure::from(failure)
        }
    }

    /// The statement that appends a chunk.
    pub fn chunk_statement(&self, table: &DuckDbTable) -> (statement: String)
        ensures
            statement@ == append_statement(*table),
    {
        "INSERT INTO ".to_owned().concat(table.quoted_dataset().as_str()).concat(
            " BY NAME SELECT * FROM arrow(?, ?)",
        )
    }

    /// The failure of appending a chunk.
    pub fn append_failure(&self, table: &DuckDbTable, error: &str) -> (raised:
        DestinationWriteFailure)
        ensures
            raised == self.reporting(raised.failure),
            raised.failure@ == write_failed(
                "failed to append to DuckDB table "@ + table.place() + ": "@ + error@,
            ),
    {
        DestinationWriteFailure {
            failure: LoadFailure::new(
                "destination_write_failed",
                "failed to append to DuckDB table ".to_owned().concat(
                    table.place_text().as_str(),
                ).concat(": ").concat(error),
            ),
            facts: DestinationWriteFacts::best_effort("insert"),
            written_records: self.written_records,
            committed_chunks: self.committed_chunks,
            transience: Transience::Terminal,
        }
    }

    /// What writing a chunk comes to, given what aligning and inserting it may
    /// give.
    pub open spec fn chunk_outcome<
        B,
        A: FnOnce() -> Result<B, LoadFailure>,
        N: FnOnce(&str, &B) -> Result<(), String>,
    >(
        self,
        table: DuckDbTable,
        align: A,
        insert: N,
        written: Result<(), DestinationWriteFailure>,
    ) -> bool {
        exists|aligned: Result<B, LoadFailure>|
            {
                &&& #[trigger] align.ensures((), aligned)
                &&& match aligned {
                    Err(failure) => written == Err::<(), _>(self.failing_before_write(failure)),
                    Ok(batch) => exists|statement: &str, inserted: Result<(), String>|
                        {
                            &&& #[trigger] insert.ensures((statement, &batch), inserted)
                            &&& statement@ == append_statement(table)
                            &&& match inserted {
                                Ok(_) => written is Ok,
                                Err(error) => written matches Err(raised) && raised
                                    == self.reporting(raised.failure) && raised.failure@
                                    == write_failed(
                                    "failed to append to DuckDB table "@ + table.place() + ": "@
                                        + error@,
                                ),
                            }
                        },
                }
            }
    }

    /// Writes a chunk: `align` puts it under the table's schema, and `insert`
    /// runs the statement for it, which commits it.
    pub fn write_chunk<
        B,
        A: FnOnce() -> Result<B, LoadFailure>,
        N: FnOnce(&str, &B) -> Result<(), String>,
    >(&self, table: &DuckDbTable, align: A, insert: N) -> (written: Result<
        (),
        DestinationWriteFailure,
    >)
        requires
            align.requires(()),
            forall|statement: &str, batch: B| #[trigger]
                align.ensures((), Ok(batch)) && statement@ == append_statement(*table)
                    ==> #[trigger] insert.requires((statement, &batch)),
        ensures
            self.chunk_outcome(*table, align, insert, written),
    {
        let aligned = align();
        proof {
            assert(align.ensures((), aligned));
        }
        let batch = match aligned {
            Ok(batch) => batch,
            Err(failure) => {
                return Err(self.chunk_failure(failure));
            },
        };
        let text = self.chunk_statement(table);
        let statement = text.as_str();
        let inserted = insert(statement, &batch);
        proof {
            assert(insert.ensures((statement, &batch), inserted));
        }
        match inserted {
            Ok(_) => Ok(()),
            Err(error) => Err(self.append_failure(table, error.as_str())),
        }
    }

    /// Counts a committed chunk.
    pub fn chunk_committed(&mut self, rows: u64)
        requires
            old(self).committed_chunks < u64::MAX,
            old(self).written_records + rows <= u64::MAX,
        ensures
            final(self).committed_chunks == old(self).committed_chunks + 1,
            final(self).written_records == old(self).written_records + rows,
    {
        self.committed_chunks = self.committed_chunks + 1;
        self.written_records = self.written_records + rows;
    }

    /// Ends the session, given how closing the database went.
    pub fn committed(self, table: &DuckDbTable, closed: Result<(), String>) -> (write: Result<
        DestinationWrite,
        DestinationWriteFailure,
    >)
        ensures
            match closed {
                Ok(_) => write == Ok::<_, DestinationWriteFailure>(
                    DestinationWrite {
                        bytes_written: None,
                        facts: facts_of("best_effort", Some("insert")),
                    },
                ),
                Err(error) => write matches Err(raised) && raised == self.reporting(raised.failure)
                    && raised.failure@ == write_failed(
                    "failed to close DuckDB database "@ + table.path@ + ": "@ + error@,
                ),
            },
    {
        match closed {
            Ok(_) => Ok(
                DestinationWrite {
                    bytes_written: None,
                    facts: DestinationWriteFacts::best_effort("insert"),
                },
            ),
            Err(error) => Err(
                DestinationWriteFailure {
                    failure: table.close_failure(error.as_str()),
                    facts: DestinationWriteFacts::best_effort("insert"),
                    written_records: self.written_records,
                    committed_chunks: self.committed_chunks,
                    transience: Transience::Terminal,
                },
            ),
        }
    }

    /// Ends the session early: the committed chunks stay.
    pub fn abandon(self) -> (abandoned: AbandonedWrite)
        ensures
            abandoned == (AbandonedWrite {
                committed_chunks: self.committed_chunks,
                written_records: self.written_records,
                facts: if self.committed_chunks > 0 {
                    facts_of("best_effort", Some("insert"))
                } else {
                    facts_of("not_applicable", None)
                },
            }),
    {
        append_abandoned("insert", self.committed_chunks, self.written_records)
    }
}

/// The equality of one merge key between the staged and the existing records.
pub open spec fn key_equality_text(key: Seq<char>) -> Seq<char> {
    "merge_target."@ + quoted(key) + " = merge_source."@ + quoted(key)
}

/// The assignment of one column from the staged record.
pub open spec fn assignment_text(column: Seq<char>) -> Seq<char> {
    quoted(column) + " = merge_source."@ + quoted(column)
}

/// A column of the staged record.
pub open spec fn staged_column_text(column: Seq<char>) -> Seq<char> {
    "merge_source."@ + quoted(column)
}

/// The columns that are no merge keys, in order.
pub open spec fn non_keys(columns: Seq<Seq<char>>, keys: Seq<Seq<char>>) -> Seq<Seq<char>>
    decreases columns.len(),
{
    if columns.len() == 0 {
        seq![]
    } else {
        let before = non_keys(columns.drop_last(), keys);
        if keys.contains(columns.last()) {
            before
        } else {
            before.push(columns.last())
        }
    }
}

/// Each name, quoted.
pub open spec fn all_quoted(names: Seq<Seq<char>>) -> Seq<Seq<char>> {
    names.map_values(|name: Seq<char>| quoted(name))
}

fn quoted_names(names: &Vec<String>) -> (identifiers: Vec<String>)
    ensures
        texts(identifiers@) == all_quoted(texts(names@)),
{
    let mut identifiers: Vec<String> = Vec::new();
    let mut i: usize = 0;
    while i < names.len()
        invariant
            i <= names.len(),
            identifiers.len() == i,
            forall|j: int| 0 <= j < i ==> (#[trigger] identifiers@[j])@ == quoted(names@[j]@),
        decreases names.len() - i,
    {
        identifiers.push(quote_identifier(names[i].as_str()));
        i = i + 1;
    }
    proof {
        assert(texts(identifiers@) =~= all_quoted(texts(names@)));
    }
    identifiers
}

fn key_equalities(keys: &Vec<String>) -> (equalities: Vec<String>)
    ensures
        texts(equalities@) == texts(keys@).map_values(|key: Seq<char>| key_equality_text(key)),
{
    let mut equalities: Vec<String> = Vec::new();
    let mut i: usize = 0;
    while i < keys.len()
        invariant
            i <= keys.len(),
            equalities.len() == i,
            forall|j: int|
                0 <= j < i ==> (#[trigger] equalities@[j])@ == key_equality_text(keys@[j]@),
        decreases keys.len() - i,
    {
        let key = quote_identifier(keys[i].as_str());
        equalities.push(
            "merge_target.".to_owned().concat(key.as_str()).concat(" = merge_source.").concat(
                key.as_str(),
            ),
        );
        i = i + 1;
    }
    proof {
        assert(texts(equalities@) =~= texts(keys@).map_values(
            |key: Seq<char>| key_equality_text(key),
        ));
    }
    equalities
}

fn assignments(columns: &Vec<String>, keys: &Vec<String>) -> (assigned: Vec<String>)
    ensures
        texts(assigned@) == non_keys(texts(columns@), texts(keys@)).map_values(
            |column: Seq<char>| assignment_text(column),
        ),
{
    let mut assigned: Vec<String> = Vec::new();
    let mut i: usize = 0;
    let ghost all = texts(columns@);
    let ghost known = texts(keys@);
    proof {
        assert(all.take(0) =~= seq![]);
        assert(texts(assigned@) =~= non_keys(all.take(0), known).map_values(
            |column: Seq<char>| assignment_text(column),
        ));
    }
    while i < columns.len()
        invariant
            i <= columns.len(),
            all == texts(columns@),
            known == texts(keys@),
            texts(assigned@) == non_keys(all.take(i as int), known).map_values(
                |column: Seq<char>| assignment_text(column),
            ),
        decreases columns.len() - i,
    {
        let ghost before = texts(assigned@);
        proof {
            assert(all.take(i as int + 1).drop_last() =~= all.take(i as int));
            assert(all.take(i as int + 1).last() == columns@[i as int]@);
        }
        if !contains_text(keys, columns[i].as_str()) {
            let column = quote_identifier(columns[i].as_str());
            assigned.push(
                column.clone().concat(" = merge_source.").concat(column.as_str()),
            );
            proof {
                assert(texts(assigned@) =~= before.push(assignment_text(columns@[i as int]@)));
                assert(texts(assigned@) =~= non_keys(all.take(i as int + 1), known).map_values(
                    |column: Seq<char>| assignment_text(column),
                ));
            }
        }
        i = i + 1;
    }
    proof {
        assert(all.take(i as int) =~= all);
    }
    assigned
}

fn staged_columns(columns: &Vec<String>) -> (staged: Vec<String>)
    ensures
        texts(staged@) == texts(columns@).map_values(
            |column: Seq<char>| staged_column_text(column),
        ),
{
    let mut staged: Vec<String> = Vec::new();
    let mut i: usize = 0;
    while i < columns.len()
        invariant
            i <= columns.len(),
            staged.len() == i,
            forall|j: int|
                0 <= j < i ==> (#[trigger] staged@[j])@ == staged_column_text(columns@[j]@),
        decreases columns.len() - i,
    {
        staged.push(
            "merge_source.".to_owned().concat(quote_identifier(columns[i].as_str()).as_str()),
        );
        i = i + 1;
    }
    proof {
        assert(texts(staged@) =~= texts(columns@).map_values(
            |column: Seq<char>| staged_column_text(column),
        ));
    }
    staged
}

/// A merge session: the table it merges into, the keys it merges on, the
/// temporary stage its chunks land in, and what was staged. Nothing is visible
/// before the terminal commit.
pub struct DuckDbMergeSession {
    pub table: DuckDbTable,
    pub merge_keys: Vec<String>,
    pub stage: String,
    pub staged_chunks: u64,
    pub staged_records: u64,
}

/// A failure within the merging transaction.
pub open spec fn merge_failed(code: Seq<char>, message: Seq<char>, raised: DestinationWriteFailure) -> bool {
    &&& raised == (DestinationWriteFailure {
        facts: facts_of("atomic", Some("transactional_merge")),
        ..unchanged_destination(raised.failure)
    })
    &&& raised.failure@ == failing(code, message)
}

impl DuckDbMergeSession {
    /// A session with nothing staged. A merge without keys has no meaning.
    pub fn new(table: DuckDbTable, merge_keys: Vec<String>, stage: String) -> (session:
        DuckDbMergeSession)
        requires
            merge_keys@.len() > 0,
        ensures
            session == (DuckDbMergeSession {
                table,
                merge_keys,
                stage,
                staged_chunks: 0,
                staged_records: 0,
            }),
    {
        DuckDbMergeSession { table, merge_keys, stage, staged_chunks: 0, staged_records: 0 }
    }

    /// How statements refer to the stage, so that no lasting table can be
    /// meant.
    pub open spec fn stage_view(self) -> Seq<char> {
        "temp.main."@ + quoted(self.stage@)
    }

    /// How statements refer to the stage.
    pub fn stage_reference(&self) -> (reference: String)
        ensures
            reference@ == self.stage_view(),
    {
        "temp.main.".to_owned().concat(quote_identifier(self.stage.as_str()).as_str())
    }

    /// The statement that creates the stage with the table's columns.
    pub fn stage_statement(&self) -> (statement: String)
        ensures
            statement@ == "CREATE TEMPORARY TABLE "@ + quoted(self.stage@) + " AS SELECT * FROM "@
                + quoted(self.table.dataset@) + " LIMIT 0"@,
    {
        "CREATE TEMPORARY TABLE ".to_owned().concat(
            quote_identifier(self.stage.as_str()).as_str(),
        ).concat(" AS SELECT * FROM ").concat(self.table.quoted_dataset().as_str()).concat(
            " LIMIT 0",
        )
    }

    /// The failure of creating the stage.
    pub fn stage_failure(&self, error: &str) -> (failure: LoadFailure)
        ensures
            failure@ == write_failed(
                "failed to create the DuckDB merge stage for table "@ + self.table.place() + ": "@
                    + error@,
            ),
    {
        LoadFailure::new(
            "destination_write_failed",
            "failed to create the DuckDB merge stage for table ".to_owned().concat(
                self.table.place_text().as_str(),
            ).concat(": ").concat(error),
        )
    }

    /// The message of one action on the table that failed.
    pub open spec fn action_message(self, action: Seq<char>, error: Seq<char>) -> Seq<char> {
        "failed to "@ + action + " DuckDB table "@ + self.table.place() + ": "@ + error
    }

    /// The failure of one action on the table, within the transaction.
    pub fn write_failure(&self, action: &str, error: &str) -> (raised: DestinationWriteFailure)
        ensures
            merge_failed(
                "destination_write_failed"@,
                self.action_message(action@, error@),
                raised,
            ),
    {
        DestinationWriteFailure::atomic(
            LoadFailure::new(
                "destination_write_failed",
                "failed to ".to_owned().concat(action).concat(" DuckDB table ").concat(
                    self.table.place_text().as_str(),
                ).concat(": ").concat(error),
            ),
            "transactional_merge",
            0,
        )
    }

    /// The statement that stages a chunk.
    pub open spec fn stage_insert_view(self) -> Seq<char> {
        "INSERT INTO "@ + self.stage_view() + " BY NAME SELECT * FROM arrow(?, ?)"@
    }

    /// The statement that stages a chunk.
    pub fn chunk_statement(&self) -> (statement: String)
        ensures
            statement@ == self.stage_insert_view(),
    {
        "INSERT INTO ".to_owned().concat(self.stage_reference().as_str()).concat(
            " BY NAME SELECT * FROM arrow(?, ?)",
        )
    }

    /// What staging a chunk comes to, given what aligning and inserting it may
    /// give: every failure leaves the destination as it was.
    pub open spec fn chunk_outcome<
        B,
        A: FnOnce() -> Result<B, LoadFailure>,
        N: FnOnce(&str, &B) -> Result<(), String>,
    >(self, align: A, insert: N, written: Result<(), DestinationWriteFailure>) -> bool {
        exists|aligned: Result<B, LoadFailure>|
            {
                &&& #[trigger] align.ensures((), aligned)
                &&& match aligned {
                    Err(failure) => written matches Err(raised) && merge_failed(
                        failure.code@,
                        failure.message@,
                        raised,
                    ),
                    Ok(batch) => exists|statement: &str, inserted: Result<(), String>|
                        {
                            &&& #[trigger] insert.ensures((statement, &batch), inserted)
                            &&& statement@ == self.stage_insert_view()
                            &&& match inserted {
                                Ok(_) => written is Ok,
                                Err(error) => written matches Err(raised) && merge_failed(
                                    "destination_write_failed"@,
                                    self.action_message("stage merge records for"@, error@),
                                    raised,
                                ),
                            }
                        },
                }
            }
    }

    /// Stages a chunk: `align` puts it under the table's schema, and `insert`
    /// runs the statement for it.
    pub fn write_chunk<
        B,
        A: FnOnce() -> Result<B, LoadFailure>,
        N: FnOnce(&str, &B) -> Result<(), String>,
    >(&self, align: A, insert: N) -> (written: Result<(), DestinationWriteFailure>)
        requires
            align.requires(()),
            forall|statement: &str, batch: B| #[trigger]
                align.ensures((), Ok(batch)) && statement@ == self.stage_insert_view()
                    ==> #[trigger] insert.requires((statement, &batch)),
        ensures
            self.chunk_outcome(align, insert, written),
    {
        let aligned = align();
        proof {
            assert(align.ensures((), aligned));
        }
        let batch = match aligned {
            Ok(batch) => batch,
            Err(failure) => {
                return Err(DestinationWriteFailure::atomic(failure, "transactional_merge", 0));
            },
        };
        let text = self.chunk_statement();
        let statement = text.as_str();
        let inserted = insert(statement, &batch);
        proof {
            assert(insert.ensures((statement, &batch), inserted));
        }
        match inserted {
            Ok(_) => Ok(()),
            Err(error) => Err(self.write_failure("stage merge records for", error.as_str())),
        }
    }

    /// Counts a staged chunk.
    pub fn chunk_staged(&mut self, rows: u64)
        requires
            old(self).staged_chunks < u64::MAX,
            old(self).staged_records + rows <= u64::MAX,
        ensures
            *final(self) == (DuckDbMergeSession {
                staged_chunks: (old(self).staged_chunks + 1) as u64,
                staged_records: (old(self).staged_records + rows) as u64,
                ..*old(self)
            }),
    {
        self.staged_chunks = self.staged_chunks + 1;
        self.staged_records = self.staged_records + rows;
    }

    /// The equality of all merge keys.
    pub open spec fn equality_view(self) -> Seq<char> {
        separated(
            texts(self.merge_keys@).map_values(|key: Seq<char>| key_equality_text(key)),
            " AND "@,
        )
    }

    /// The equality of all merge keys.
    pub fn key_equality(&self) -> (equality: String)
        ensures
            equality@ == self.equality_view(),
    {
        separated_text(&key_equalities(&self.merge_keys), " AND ")
    }

    /// The query that counts the staged records which share their keys with
    /// another staged record.
    pub open spec fn colliding_view(self) -> Seq<char> {
        "SELECT count(*) FROM (SELECT count(*) OVER (PARTITION BY "@ + separated(
            all_quoted(texts(self.merge_keys@)),
            ", "@,
        ) + ") AS key_tuple_records FROM "@ + self.stage_view()
            + ") AS keyed WHERE key_tuple_records > 1"@
    }

    /// The query that counts the staged records which share their keys with
    /// another staged record.
    pub fn colliding_records_sql(&self) -> (statement: String)
        ensures
            statement@ == self.colliding_view(),
    {
        "SELECT count(*) FROM (SELECT count(*) OVER (PARTITION BY ".to_owned().concat(
            separated_text(&quoted_names(&self.merge_keys), ", ").as_str(),
        ).concat(") AS key_tuple_records FROM ").concat(self.stage_reference().as_str()).concat(
            ") AS keyed WHERE key_tuple_records > 1",
        )
    }

    /// The query that counts the staged records whose keys match an existing
    /// record.
    pub open spec fn matched_view(self) -> Seq<char> {
        "SELECT count(*) FROM "@ + self.stage_view()
            + " AS merge_source WHERE EXISTS (SELECT 1 FROM "@ + quoted(self.table.dataset@)
            + " AS merge_target WHERE "@ + self.equality_view() + ")"@
    }

    /// The query that counts the staged records whose keys match an existing
    /// record.
    pub fn matched_records_sql(&self) -> (statement: String)
        ensures
            statement@ == self.matched_view(),
    {
        "SELECT count(*) FROM ".to_owned().concat(self.stage_reference().as_str()).concat(
            " AS merge_source WHERE EXISTS (SELECT 1 FROM ",
        ).concat(self.table.quoted_dataset().as_str()).concat(" AS merge_target WHERE ").concat(
            self.key_equality().as_str(),
        ).concat(")")
    }

    /// The statement that merges the stage into a table with these columns: an
    /// existing record takes every column that is no key from the staged one,
    /// and a staged record without a match is inserted. Where every column is
    /// a key there is nothing to update.
    pub open spec fn merge_view(self, columns: Seq<Seq<char>>) -> Seq<char> {
        let updates = non_keys(columns, texts(self.merge_keys@)).map_values(
            |column: Seq<char>| assignment_text(column),
        );
        let matched = if updates.len() == 0 {
            seq![]
        } else {
            " WHEN MATCHED THEN UPDATE SET "@ + separated(updates, ", "@)
        };
        "MERGE INTO "@ + quoted(self.table.dataset@) + " AS merge_target USING "@
            + self.stage_view() + " AS merge_source ON "@ + self.equality_view() + matched
            + " WHEN NOT MATCHED THEN INSERT ("@ + separated(all_quoted(columns), ", "@)
            + ") VALUES ("@ + separated(
            columns.map_values(|column: Seq<char>| staged_column_text(column)),
            ", "@,
        ) + ")"@
    }

    /// The statement that merges the stage into a table with these columns.
    pub fn merge_sql(&self, columns: &Vec<String>) -> (statement: String)
        ensures
            statement@ == self.merge_view(texts(columns@)),
    {
        let updates = assignments(columns, &self.merge_keys);
        assert(texts(updates@).len() == updates@.len());
        let matched = if updates.len() == 0 {
            let empty = String::new();
            assert(empty@ =~= seq![]);
            empty
        } else {
            " WHEN MATCHED THEN UPDATE SET ".to_owned().concat(
                separated_text(&updates, ", ").as_str(),
            )
        };
        let insert_columns = separated_text(&quoted_names(columns), ", ");
        let insert_values = separated_text(&staged_columns(columns), ", ");
        "MERGE INTO ".to_owned().concat(self.table.quoted_dataset().as_str()).concat(
            " AS merge_target USING ",
        ).concat(self.stage_reference().as_str()).concat(" AS merge_source ON ").concat(
            self.key_equality().as_str(),
        ).concat(matched.as_str()).concat(" WHEN NOT MATCHED THEN INSERT (").concat(
            insert_columns.as_str(),
        ).concat(") VALUES (").concat(insert_values.as_str()).concat(")")
    }

    /// Ends the session without a commit: the transaction is rolled back and
    /// the stage vanishes with it.
    pub fn abandon(self) -> (abandoned: AbandonedWrite)
        ensures
            abandoned == nothing_abandoned(),
    {
        AbandonedWrite {
            committed_chunks: 0,
            written_records: 0,
            facts: DestinationWriteFacts::not_applicable(),
        }
    }
}

/// What the commit of a merge session does next, on the open transaction.
#[derive(Debug)]
pub enum MergeAction {
    /// Run a query and reply with the count it gives.
    Query(String),
    /// Run a statement and reply with how it went.
    Execute(String),
    /// Close the database and reply with how it went.
    Close,
}

/// How far the commit of a merge session has come.
#[derive(Clone, Copy, Debug)]
pub enum MergeStage {
    CheckKeys,
    CountMatched,
    Merge { counts: MergeWriteCounts },
    Commit { counts: MergeWriteCounts },
    Close { counts: MergeWriteCounts },
}

/// The commit of a merge session, step by step: the staged records must have
/// different keys, those that match existing records are counted, the stage is
/// merged, and the transaction is committed. A failure before the commit
/// leaves the destination as it was.
pub struct MergeCommit {
    pub session: DuckDbMergeSession,
    pub columns: Vec<String>,
    pub stage: MergeStage,
}

/// What a reply makes of a commit.
pub enum MergeProgress {
    Next(MergeCommit),
    Committed(DestinationWrite),
    Failed(DestinationWriteFailure),
}

/// The texts of an action.
pub enum MergeActionView {
    Query(Seq<char>),
    Execute(Seq<char>),
    Close,
}

impl View for MergeAction {
    type V = MergeActionView;

    open spec fn view(&self) -> MergeActionView {
        match self {
            MergeAction::Query(statement) => MergeActionView::Query(statement@),
            MergeAction::Execute(statement) => MergeActionView::Execute(statement@),
            MergeAction::Close => MergeActionView::Close,
        }
    }
}

/// The message of staged records that share their keys.
pub open spec fn duplicate_keys_message(colliding: nat, table: DuckDbTable) -> Seq<char> {
    decimal(colliding)
        + " surviving records share a merge key tuple with another surviving record for DuckDB table "@
        + table.place()
}

impl MergeCommit {
    /// The partition of the staged records, given how many of them match.
    pub open spec fn partition(self, matched: int) -> MergeWriteCounts {
        MergeWriteCounts {
            updated: matched as u64,
            inserted: (self.session.staged_records - matched) as u64,
        }
    }

    /// What is done next.
    pub open spec fn next_action(self) -> MergeActionView {
        match self.stage {
            MergeStage::CheckKeys => MergeActionView::Query(self.session.colliding_view()),
            MergeStage::CountMatched => MergeActionView::Query(self.session.matched_view()),
            MergeStage::Merge { .. } => MergeActionView::Execute(
                self.session.merge_view(texts(self.columns@)),
            ),
            MergeStage::Commit { .. } => MergeActionView::Execute("COMMIT"@),
            MergeStage::Close { .. } => MergeActionView::Close,
        }
    }

    /// The commit of a session into a table with these columns.
    pub fn new(session: DuckDbMergeSession, columns: Vec<String>) -> (commit: MergeCommit)
        ensures
            commit == (MergeCommit { session, columns, stage: MergeStage::CheckKeys }),
    {
        MergeCommit { session, columns, stage: MergeStage::CheckKeys }
    }

    /// What is done next.
    pub fn action(&self) -> (action: MergeAction)
        ensures
            action@ == self.next_action(),
    {
        match self.stage {
            MergeStage::CheckKeys => MergeAction::Query(self.session.colliding_records_sql()),
            MergeStage::CountMatched => MergeAction::Query(self.session.matched_records_sql()),
            MergeStage::Merge { .. } => MergeAction::Execute(self.session.merge_sql(&self.columns)),
            MergeStage::Commit { .. } => MergeAction::Execute("COMMIT".to_owned()),
            MergeStage::Close { .. } => MergeAction::Close,
        }
    }

    /// Takes the reply to a query. Staged records that share their keys end
    /// the commit, since its meaning would depend on which of them wins.
    pub fn counted(self, reply: Result<i64, String>) -> (next: Result<
        MergeCommit,
        DestinationWriteFailure,
    >)
        requires
            self.stage is CheckKeys || self.stage is CountMatched,
            self.stage is CountMatched ==> (reply matches Ok(matched) ==> 0 <= matched
                <= self.session.staged_records),
        ensures
            match reply {
                Err(error) => {
                    let action = if self.stage is CheckKeys {
                        "check merge key uniqueness for"@
                    } else {
                        "count matched merge records for"@
                    };
                    next matches Err(raised) && merge_failed(
                        "destination_write_failed"@,
                        self.session.action_message(action, error@),
                        raised,
                    )
                },
                Ok(count) => if self.stage is CheckKeys {
                    if count > 0 {
                        next matches Err(raised) && merge_failed(
                            "duplicate_merge_keys"@,
                            duplicate_keys_message(count as nat, self.session.table),
                            raised,
                        )
                    } else {
                        next matches Ok(commit) && commit == (MergeCommit {
                            stage: MergeStage::CountMatched,
                            ..self
                        })
                    }
                } else {
                    next matches Ok(commit) && commit == (MergeCommit {
                        stage: MergeStage::Merge { counts: self.partition(count as int) },
                        ..self
                    })
                },
            },
    {
        match self.stage {
            MergeStage::CheckKeys => {
                match reply {
                    Err(error) => Err(
                        self.session.write_failure(
                            "check merge key uniqueness for",
                            error.as_str(),
                        ),
                    ),
                    Ok(colliding) => if colliding > 0 {
                        let message = decimal_text(colliding as u64).concat(
                            " surviving records share a merge key tuple with another surviving record for DuckDB table ",
                        ).concat(self.session.table.place_text().as_str());
                        Err(
                            DestinationWriteFailure::atomic(
                                LoadFailure::new("duplicate_merge_keys", message),
                                "transactional_merge",
                                0,
                            ),
                        )
                    } else {
                        Ok(
                            MergeCommit {
                                session: self.session,
                                columns: self.columns,
                                stage: MergeStage::CountMatched,
                            },
                        )
                    },
                }
            },
            _ => {
                match reply {
                    Err(error) => Err(
                        self.session.write_failure(
                            "count matched merge records for",
                            error.as_str(),
                        ),
                    ),
                    Ok(matched) => {
                        let updated: u64 = matched as u64;
                        let counts = MergeWriteCounts {
                            updated,
                            inserted: self.session.staged_records - updated,
                        };
                        Ok(
                            MergeCommit {
                                session: self.session,
                                columns: self.columns,
                                stage: MergeStage::Merge { counts },
                            },
                        )
                    },
                }
            },
        }
    }

    /// Takes the reply to a statement, or to closing the database. A failure
    /// to close comes after the commit and reports what was written.
    pub fn executed(self, reply: Result<(), String>) -> (progress: MergeProgress)
        requires
            !(self.stage is CheckKeys) && !(self.stage is CountMatched),
        ensures
            match (self.stage, reply) {
                (MergeStage::Merge { counts }, Ok(_)) => progress == MergeProgress::Next(
                    MergeCommit { stage: MergeStage::Commit { counts }, ..self },
                ),
                (MergeStage::Commit { counts }, Ok(_)) => progress == MergeProgress::Next(
                    MergeCommit { stage: MergeStage::Close { counts }, ..self },
                ),
                (MergeStage::Close { counts }, Ok(_)) => progress == MergeProgress::Committed(
                    DestinationWrite {
                        bytes_written: None,
                        facts: DestinationWriteFacts {
                            merge: Some(counts),
                            ..facts_of("atomic", Some("transactional_merge"))
                        },
                    },
                ),
                (MergeStage::Close { .. }, Err(error)) => progress matches MergeProgress::Failed(
                    raised,
                ) && raised == (DestinationWriteFailure {
                    failure: raised.failure,
                    facts: facts_of("atomic", Some("transactional_merge")),
                    written_records: self.session.staged_records,
                    committed_chunks: self.session.staged_chunks,
                    transience: Transience::Terminal,
                }) && raised.failure@ == write_failed(
                    "failed to close DuckDB database "@ + self.session.table.path@ + ": "@ + error@,
                ),
                (stage, Err(error)) => {
                    let action = if stage is Merge {
                        "merge into"@
                    } else {
                        "commit the merge of"@
                    };
                    progress matches MergeProgress::Failed(raised) && merge_failed(
                        "destination_write_failed"@,
                        self.session.action_message(action, error@),
                        raised,
                    )
                },
                _ => true,
            },
    {
        match (self.stage, reply) {
            (MergeStage::Merge { counts }, Ok(_)) => MergeProgress::Next(
                MergeCommit {
                    session: self.session,
                    columns: self.columns,
                    stage: MergeStage::Commit { counts },
                },
            ),
            (MergeStage::Merge { .. }, Err(error)) => MergeProgress::Failed(
                self.session.write_failure("merge into", error.as_str()),
            ),
            (MergeStage::Commit { counts }, Ok(_)) => MergeProgress::Next(
                MergeCommit {
                    session: self.session,
                    columns: self.columns,
                    stage: MergeStage::Close { counts },
                },
            ),
            (MergeStage::Close { counts }, Ok(_)) => MergeProgress::Committed(
                DestinationWrite {
                    bytes_written: None,
                    facts: DestinationWriteFacts::atomic("transactional_merge").with_merge_counts(
                        counts.updated,
                        counts.inserted,
                    ),
                },
            ),
            (MergeStage::Close { .. }, Err(error)) => MergeProgress::Failed(
                DestinationWriteFailure {
                    failure: self.session.table.close_failure(error.as_str()),
                    facts: DestinationWriteFacts::atomic("transactional_merge"),
                    written_records: self.session.staged_records,
                    committed_chunks: self.session.staged_chunks,
                    transience: Transience::Terminal,
                },
            ),
            (_, Err(error)) => MergeProgress::Failed(
                self.session.write_failure("commit the merge of", error.as_str()),
            ),
            (_, Ok(_)) => MergeProgress::Next(self),
        }
    }
}

/// A committed merge accounts for every staged record: each either replaced an
/// existing one or was inserted.
pub proof fn law_merge_partitions_the_staged_records(commit: MergeCommit, matched: int)
    requires
        0 <= matched <= commit.session.staged_records,
    ensures
        commit.partition(matched).updated + commit.partition(matched).inserted
            == commit.session.staged_records,
{
}

/// The columns that a merge updates are those of the table that are no keys.
pub proof fn law_merge_updates_every_non_key(columns: Seq<Seq<char>>, keys: Seq<Seq<char>>)
    ensures
        forall|column: Seq<char>| #[trigger]
            non_keys(columns, keys).contains(column) <==> columns.contains(column)
                && !keys.contains(column),
    decreases columns.len(),
{
    if columns.len() > 0 {
        let shorter = columns.drop_last();
        law_merge_updates_every_non_key(shorter, keys);
        let before = non_keys(shorter, keys);
        let after = non_keys(columns, keys);
        assert forall|column: Seq<char>| #[trigger] after.contains(column) <==> columns.contains(
            column,
        ) && !keys.contains(column) by {
            if after.contains(column) {
                let i = choose|i: int| 0 <= i < after.len() && after[i] == column;
                if i < before.len() {
                    assert(before[i] == column);
                    assert(before.contains(column));
                    let k = choose|k: int| 0 <= k < shorter.len() && shorter[k] == column;
                    assert(columns[k] == column);
                } else {
                    assert(columns[columns.len() - 1] == column);
                }
            }
            if columns.contains(column) && !keys.contains(column) {
                let k = choose|k: int| 0 <= k < columns.len() && columns[k] == column;
                if k < shorter.len() {
                    assert(shorter[k] == column);
                    assert(shorter.contains(column));
                    assert(before.contains(column));
                    let i = choose|i: int| 0 <= i < before.len() && before[i] == column;
                    assert(after[i] == column);
                } else {
                    assert(after[before.len() as int] == column);
                }
            }
        }
    }
}

/// No failure of writing a chunk to a DuckDB table calls for another attempt:
/// neither an append nor a merge is ever retried.
pub proof fn law_chunk_failures_are_terminal<
    B,
    A: FnOnce() -> Result<B, LoadFailure>,
    N: FnOnce(&str, &B) -> Result<(), String>,
>(
    append: DuckDbAppendSession,
    merge: DuckDbMergeSession,
    table: DuckDbTable,
    align: A,
    insert: N,
    written: Result<(), DestinationWriteFailure>,
)
    requires
        append.chunk_outcome(table, align, insert, written) || merge.chunk_outcome(
            align,
            insert,
            written,
        ),
        written is Err,
    ensures
        written->Err_0.transience == Transience::Terminal,
{
}

/// A failed append reports exactly the chunks and records it has committed.
pub proof fn law_append_reports_its_committed_prefix(
    session: DuckDbAppendSession,
    failure: LoadFailure,
)
    requires
        session.committed_chunks == 0 ==> session.written_records == 0,
    ensures
        session.failing_before_write(failure).committed_chunks == session.committed_chunks,
        session.failing_before_write(failure).written_records == session.written_records,
{
}

/// A chunk that a merge could not stage leaves the destination as it was.
pub proof fn law_failed_merge_chunk_wrote_nothing<
    B,
    A: FnOnce() -> Result<B, LoadFailure>,
    N: FnOnce(&str, &B) -> Result<(), String>,
>(
    session: DuckDbMergeSession,
    align: A,
    insert: N,
    written: Result<(), DestinationWriteFailure>,
)
    requires
        session.chunk_outcome(align, insert, written),
        written is Err,
    ensures
        written->Err_0.written_records == 0,
        written->Err_0.committed_chunks == 0,
{
}

/// A quoted name starts and ends in a double quote. What is between them reads
/// back as the name, and is no longer than doubling the name's quotes makes it.
pub proof fn law_identifier_reads_back(name: &str, identifier: String)
    requires
        call_ensures(quote_identifier, (name,), identifier),
    ensures
        identifier@.len() == name@.len() + quotes_in(name@) + 2,
        identifier@.first() == '"' && identifier@.last() == '"',
        single_quotes(identifier@.subrange(1, identifier@.len() - 1)) == name@,
        closing_quotes(identifier@.subrange(1, identifier@.len() - 1)) == 2 * closing_quotes(name@),
{
    law_quoted_name_reads_back(name@);
    law_name_cannot_close_its_quotes(name@);
    assert(identifier@.subrange(1, identifier@.len() - 1) =~= doubled_quotes(name@));
}

/// A table is addressed by its quoted name alone, and showing its columns reads no
/// record.
pub proof fn law_table_is_inspected_under_its_name(
    table: DuckDbTable,
    identifier: String,
    statement: String,
)
    requires
        call_ensures(DuckDbTable::quoted_dataset, (&table,), identifier),
        call_ensures(DuckDbTable::inspect_statement, (&table,), statement),
    ensures
        single_quotes(identifier@.subrange(1, identifier@.len() - 1)) == table.dataset@,
        statement@ == "SELECT * FROM "@ + identifier@ + " LIMIT 0"@,
{
    law_quoted_name_reads_back(table.dataset@);
}

/// Every failure around a DuckDB table is one of writing to the destination, and
/// says what failed, where, and why.
pub proof fn law_duckdb_failures_say_what_failed(
    table: DuckDbTable,
    operation: &str,
    error: &str,
    inspecting: LoadFailure,
    opening: LoadFailure,
    closing: LoadFailure,
    aligning: LoadFailure,
    beginning: LoadFailure,
    mismatch: LoadFailure,
)
    requires
        call_ensures(DuckDbTable::inspect_failure, (&table, operation, error), inspecting),
        call_ensures(DuckDbTable::open_failure, (&table, error), opening),
        call_ensures(DuckDbTable::close_failure, (&table, error), closing),
        call_ensures(DuckDbTable::align_failure, (&table, operation, error), aligning),
        call_ensures(DuckDbTable::begin_failure, (&table, operation, error), beginning),
        call_ensures(duckdb_schema_mismatch, (&table, operation), mismatch),
    ensures
        inspecting.code@ == "destination_write_failed"@,
        inspecting.message@ == "failed to inspect DuckDB table "@ + (table.dataset@ + " in "@
            + table.path@) + " before "@ + operation@ + ": "@ + error@,
        opening.code@ == "destination_write_failed"@,
        opening.message@ == "failed to open DuckDB database "@ + table.path@ + ": "@ + error@,
        closing.code@ == "destination_write_failed"@,
        closing.message@ == "failed to close DuckDB database "@ + table.path@ + ": "@ + error@,
        aligning.code@ == "destination_write_failed"@,
        aligning.message@ == "failed to align "@ + operation@
            + " records with DuckDB destination "@ + (table.dataset@ + " in "@ + table.path@) + ": "@
            + error@,
        beginning.code@ == "destination_write_failed"@,
        beginning.message@ == "failed to begin the DuckDB "@ + operation@ + " transaction in "@
            + table.path@ + ": "@ + error@,
        mismatch.code@ == "destination_write_failed"@,
        mismatch.message@ == operation@ + " schema does not match DuckDB destination "@ + (
        table.dataset@ + " in "@ + table.path@),
{
}

proof fn lemma_insertion_is_no_replacement(rest: Seq<char>)
    ensures
        !"CREATE OR REPLACE"@.is_prefix_of("INSERT INTO "@ + rest),
{
    reveal_strlit("CREATE OR REPLACE");
    reveal_strlit("INSERT INTO ");
    let statement = "INSERT INTO "@ + rest;
    assert(statement[0] == 'I');
    assert("CREATE OR REPLACE"@[0] == 'C');
    if "CREATE OR REPLACE"@.is_prefix_of(statement) {
        assert("CREATE OR REPLACE"@ == statement.take("CREATE OR REPLACE"@.len() as int));
        assert(statement.take("CREATE OR REPLACE"@.len() as int)[0] == statement[0]);
    }
}

/// Only the first chunk of a full refresh replaces the table. As soon as one chunk
/// was written the statement inserts into it, and no longer replaces anything.
pub proof fn law_only_the_first_chunk_replaces_the_table(
    session: DuckDbFullRefreshSession,
    table: DuckDbTable,
    statement: String,
)
    requires
        call_ensures(
            DuckDbFullRefreshSession::chunk_statement,
            (&session, &table),
            statement,
        ),
    ensures
        session.written_chunks == 0 ==> statement@ == "CREATE OR REPLACE TABLE "@ + quoted(
            table.dataset@,
        ) + " AS SELECT * FROM arrow(?, ?)"@,
        session.written_chunks > 0 ==> statement@ == "INSERT INTO "@ + quoted(table.dataset@)
            + " SELECT * FROM arrow(?, ?)"@,
        session.written_chunks > 0 ==> !"CREATE OR REPLACE"@.is_prefix_of(statement@),
{
    if session.written_chunks > 0 {
        lemma_insertion_is_no_replacement(quoted(table.dataset@) + " SELECT * FROM arrow(?, ?)"@);
        assert(statement@ =~= "INSERT INTO "@ + (quoted(table.dataset@)
            + " SELECT * FROM arrow(?, ?)"@));
    }
}

/// A written chunk counts once, with its records.
pub proof fn law_refresh_counts_every_chunk(session: &mut DuckDbFullRefreshSession, rows: u64)
    requires
        call_ensures(DuckDbFullRefreshSession::chunk_written, (session, rows), ()),
    ensures
        final(session).written_chunks == old(session).written_chunks + 1,
        final(session).written_records == old(session).written_records + rows,
{
}

/// Over a whole full refresh the statements are one replacement of the table and
/// then insertions into it, nothing else: no chunk takes away what an earlier one
/// wrote. `sessions` are the session before each chunk.
pub proof fn law_refresh_is_one_replacement_then_insertions(
    sessions: Seq<DuckDbFullRefreshSession>,
    table: DuckDbTable,
    statements: Seq<String>,
    at: int,
)
    requires
        statements.len() == sessions.len(),
        0 <= at < statements.len(),
        call_ensures(DuckDbFullRefreshSession::new, (), sessions[0]),
        forall|i: int|
            0 < i < sessions.len() ==> (#[trigger] sessions[i]).written_chunks == sessions[i
                - 1].written_chunks + 1,
        forall|i: int|
            0 <= i < sessions.len() ==> call_ensures(
                DuckDbFullRefreshSession::chunk_statement,
                (&sessions[i], &table),
                #[trigger] statements[i],
            ),
    ensures
        sessions[at].written_chunks == at,
        "CREATE OR REPLACE"@.is_prefix_of(statements[at]@) <==> at == 0,
        at > 0 ==> "INSERT INTO "@.is_prefix_of(statements[at]@),
    decreases at,
{
    if at > 0 {
        law_refresh_is_one_replacement_then_insertions(sessions, table, statements, at - 1);
    }
    assert(call_ensures(
        DuckDbFullRefreshSession::chunk_statement,
        (&sessions[at], &table),
        statements[at],
    ));
    law_only_the_first_chunk_replaces_the_table(sessions[at], table, statements[at]);
    let rest = quoted(table.dataset@);
    if at == 0 {
        reveal_strlit("CREATE OR REPLACE TABLE ");
        reveal_strlit("CREATE OR REPLACE");
        assert("CREATE OR REPLACE"@ =~= statements[at]@.take("CREATE OR REPLACE"@.len() as int));
    } else {
        assert("INSERT INTO "@ =~= statements[at]@.take("INSERT INTO "@.len() as int));
    }
}

/// A chunk of a full refresh is written by running its statement, once. Where that
/// fails, nothing of the load is left, since the transaction is rolled back.
pub proof fn law_refresh_chunk_runs_its_statement<N: FnOnce(&str) -> Result<(), String>>(
    session: DuckDbFullRefreshSession,
    table: DuckDbTable,
    insert: N,
    statement: String,
    written: Result<(), DestinationWriteFailure>,
)
    requires
        call_ensures(
            DuckDbFullRefreshSession::chunk_statement,
            (&session, &table),
            statement,
        ),
        call_ensures(
            DuckDbFullRefreshSession::write_chunk::<N>,
            (&session, &table, insert),
            written,
        ),
    ensures
        exists|ran: &str, inserted: Result<(), String>|
            {
                &&& #[trigger] insert.ensures((ran,), inserted)
                &&& ran@ == statement@
                &&& inserted is Ok <==> written is Ok
                &&& inserted matches Err(error) ==> written->Err_0.failure.message@
                    == "failed to replace DuckDB table "@ + (table.dataset@ + " in "@ + table.path@)
                    + ": "@ + error@
            },
        written matches Err(raised) ==> {
            &&& raised.failure.code@ == "destination_write_failed"@
            &&& raised.facts.atomicity@ == "atomic"@
            &&& raised.facts.strategy matches Some(strategy) && strategy@
                == "transactional_replace"@
            &&& raised.written_records == 0 && raised.committed_chunks == 0
            &&& raised.transience == Transience::Terminal
        },
{
}

/// A full refresh takes effect with its commit: where that fails nothing was
/// written, and where only closing the database fails after it, everything was.
pub proof fn law_refresh_takes_effect_with_its_commit<
    X: FnOnce(&str) -> Result<(), String>,
    Z: FnOnce() -> Result<(), String>,
>(
    session: DuckDbFullRefreshSession,
    table: DuckDbTable,
    execute: X,
    close: Z,
    write: Result<DestinationWrite, DestinationWriteFailure>,
)
    requires
        call_ensures(
            DuckDbFullRefreshSession::commit::<X, Z>,
            (session, &table, execute, close),
            write,
        ),
    ensures
        exists|ran: &str, executed: Result<(), String>|
            {
                &&& #[trigger] execute.ensures((ran,), executed)
                &&& ran@ == "COMMIT"@
                &&& executed matches Err(error) ==> {
                    &&& write matches Err(raised)
                    &&& raised.failure.message@ == "failed to commit the DuckDB replace of table "@
                        + (table.dataset@ + " in "@ + table.path@) + ": "@ + error@
                    &&& raised.written_records == 0 && raised.committed_chunks == 0
                }
                &&& executed is Ok ==> exists|closed: Result<(), String>|
                    {
                        &&& #[trigger] close.ensures((), closed)
                        &&& closed is Ok <==> write is Ok
                        &&& write matches Err(raised) ==> raised.written_records
                            == session.written_records && raised.committed_chunks
                            == session.written_chunks
                    }
            },
        write matches Ok(done) ==> {
            &&& done.bytes_written is None
            &&& done.facts.atomicity@ == "atomic"@
            &&& done.facts.strategy matches Some(strategy) && strategy@
                == "transactional_replace"@
            &&& done.facts.merge is None
        },
        write matches Err(raised) ==> {
            &&& raised.failure.code@ == "destination_write_failed"@
            &&& raised.facts.atomicity@ == "atomic"@
            &&& raised.facts.strategy matches Some(strategy) && strategy@
                == "transactional_replace"@
            &&& raised.transience == Transience::Terminal
        },
{
}

/// A session that is abandoned before its commit leaves nothing behind, be it a
/// full refresh or a merge, however much it had written inside its transaction.
pub proof fn law_abandoned_transaction_leaves_nothing(
    refresh: DuckDbFullRefreshSession,
    merge: DuckDbMergeSession,
    after_refresh: AbandonedWrite,
    after_merge: AbandonedWrite,
)
    requires
        call_ensures(DuckDbFullRefreshSession::abandon, (refresh,), after_refresh),
        call_ensures(DuckDbMergeSession::abandon, (merge,), after_merge),
    ensures
        after_refresh.committed_chunks == 0 && after_refresh.written_records == 0,
        after_refresh.facts.atomicity@ == "not_applicable"@,
        after_refresh.facts.strategy is None && after_refresh.facts.merge is None,
        after_merge.committed_chunks == 0 && after_merge.written_records == 0,
        after_merge.facts.atomicity@ == "not_applicable"@,
        after_merge.facts.strategy is None && after_merge.facts.merge is None,
{
}

/// Every chunk of an append is inserted into the table, column by column name, and
/// none replaces anything.
pub proof fn law_append_only_inserts(
    session: DuckDbAppendSession,
    table: DuckDbTable,
    statement: String,
)
    requires
        call_ensures(DuckDbAppendSession::chunk_statement, (&session, &table), statement),
    ensures
        statement@ == "INSERT INTO "@ + quoted(table.dataset@)
            + " BY NAME SELECT * FROM arrow(?, ?)"@,
        !"CREATE OR REPLACE"@.is_prefix_of(statement@),
{
    let rest = quoted(table.dataset@) + " BY NAME SELECT * FROM arrow(?, ?)"@;
    lemma_insertion_is_no_replacement(rest);
    assert(statement@ =~= "INSERT INTO "@ + rest);
}

/// A new append has committed nothing, and a committed chunk counts once, with its
/// records.
pub proof fn law_append_counts_every_chunk(
    fresh: DuckDbAppendSession,
    session: &mut DuckDbAppendSession,
    rows: u64,
)
    requires
        call_ensures(DuckDbAppendSession::new, (), fresh),
        call_ensures(DuckDbAppendSession::chunk_committed, (session, rows), ()),
    ensures
        fresh.committed_chunks == 0 && fresh.written_records == 0,
        final(session).committed_chunks == old(session).committed_chunks + 1,
        final(session).written_records == old(session).written_records + rows,
{
}

/// A chunk of an append is aligned first and inserted as it was aligned, once. It
/// is written exactly where both went well.
pub proof fn law_append_chunk_is_aligned_then_inserted<
    B,
    A: FnOnce() -> Result<B, LoadFailure>,
    N: FnOnce(&str, &B) -> Result<(), String>,
>(
    session: DuckDbAppendSession,
    table: DuckDbTable,
    align: A,
    insert: N,
    statement: String,
    written: Result<(), DestinationWriteFailure>,
)
    requires
        call_ensures(DuckDbAppendSession::chunk_statement, (&session, &table), statement),
        call_ensures(
            DuckDbAppendSession::write_chunk::<B, A, N>,
            (&session, &table, align, insert),
            written,
        ),
    ensures
        exists|aligned: Result<B, LoadFailure>|
            {
                &&& #[trigger] align.ensures((), aligned)
                &&& aligned matches Err(failure) ==> (written matches Err(raised) && raised.failure
                    == failure)
                &&& aligned matches Ok(batch) ==> exists|ran: &str, inserted: Result<(), String>|
                    {
                        &&& #[trigger] insert.ensures((ran, &batch), inserted)
                        &&& ran@ == statement@
                        &&& inserted is Ok <==> written is Ok
                        &&& inserted matches Err(error) ==> written->Err_0.failure.message@
                            == "failed to append to DuckDB table "@ + (table.dataset@ + " in "@
                            + table.path@) + ": "@ + error@
                    }
            },
        written matches Err(raised) ==> {
            &&& raised.transience == Transience::Terminal
            &&& session.committed_chunks > 0 ==> {
                &&& raised.committed_chunks == session.committed_chunks
                &&& raised.written_records == session.written_records
                &&& raised.facts.atomicity@ == "best_effort"@
                &&& raised.facts.strategy matches Some(strategy) && strategy@ == "insert"@
            }
        },
{
}

/// However an append ends, it states what it has committed: the chunks, the
/// records, and that they were inserted on a best effort. Without a committed chunk
/// the destination was not changed.
pub proof fn law_append_states_what_it_committed(
    session: DuckDbAppendSession,
    table: DuckDbTable,
    failure: LoadFailure,
    closed: Result<(), String>,
    raised: DestinationWriteFailure,
    write: Result<DestinationWrite, DestinationWriteFailure>,
    abandoned: AbandonedWrite,
)
    requires
        session.committed_chunks == 0 ==> session.written_records == 0,
        call_ensures(DuckDbAppendSession::chunk_failure, (&session, failure), raised),
        call_ensures(DuckDbAppendSession::committed, (session, &table, closed), write),
        call_ensures(DuckDbAppendSession::abandon, (session,), abandoned),
    ensures
        raised.failure == failure,
        raised.committed_chunks == session.committed_chunks,
        raised.written_records == session.written_records,
        raised.transience == Transience::Terminal,
        abandoned.committed_chunks == session.committed_chunks,
        abandoned.written_records == session.written_records,
        session.committed_chunks == 0 ==> raised.facts.atomicity@ == "not_applicable"@
            && raised.facts.strategy is None && abandoned.facts.atomicity@ == "not_applicable"@
            && abandoned.facts.strategy is None,
        session.committed_chunks > 0 ==> raised.facts.atomicity@ == "best_effort"@
            && raised.facts.strategy->0@ == "insert"@ && raised.facts.strategy is Some
            && abandoned.facts.atomicity@ == "best_effort"@ && abandoned.facts.strategy is Some
            && abandoned.facts.strategy->0@ == "insert"@,
        closed is Ok <==> write is Ok,
        write matches Ok(done) ==> {
            &&& done.bytes_written is None
            &&& done.facts.atomicity@ == "best_effort"@
            &&& done.facts.strategy matches Some(strategy) && strategy@ == "insert"@
            &&& done.facts.merge is None
        },
        write matches Err(closing) ==> {
            &&& closing.failure.message@ == "failed to close DuckDB database "@ + table.path@
                + ": "@ + closed->Err_0@
            &&& closing.committed_chunks == session.committed_chunks
            &&& closing.written_records == session.written_records
            &&& closing.facts.atomicity@ == "best_effort"@
            &&& closing.transience == Transience::Terminal
        },
{
}

/// Whether a column is one of the merge keys.
pub open spec fn is_merge_key(session: DuckDbMergeSession, column: Seq<char>) -> bool {
    exists|k: int| 0 <= k < session.merge_keys@.len() && (#[trigger] session.merge_keys@[k])@ == column
}

proof fn lemma_merge_keys(session: DuckDbMergeSession, column: Seq<char>)
    ensures
        is_merge_key(session, column) <==> texts(session.merge_keys@).contains(column),
{
    let keys = texts(session.merge_keys@);
    if is_merge_key(session, column) {
        let k = choose|k: int|
            0 <= k < session.merge_keys@.len() && (#[trigger] session.merge_keys@[k])@ == column;
        assert(keys[k] == column);
    }
    if keys.contains(column) {
        let k = choose|k: int| 0 <= k < keys.len() && keys[k] == column;
        assert(session.merge_keys@[k]@ == column);
    }
}

/// The equality of all merge keys compares every one of them, the existing record's
/// with the staged record's, and asks for all of them at once.
pub proof fn law_keys_match_when_every_key_is_equal(
    session: DuckDbMergeSession,
    equality: String,
)
    requires
        call_ensures(DuckDbMergeSession::key_equality, (&session,), equality),
    ensures
        equality@ == separated(
            Seq::new(
                session.merge_keys@.len(),
                |i: int|
                    "merge_target."@ + quoted(session.merge_keys@[i]@) + " = merge_source."@
                        + quoted(session.merge_keys@[i]@),
            ),
            " AND "@,
        ),
{
    assert(texts(session.merge_keys@).map_values(|key: Seq<char>| key_equality_text(key))
        =~= Seq::new(
        session.merge_keys@.len(),
        |i: int|
            "merge_target."@ + quoted(session.merge_keys@[i]@) + " = merge_source."@ + quoted(
                session.merge_keys@[i]@,
            ),
    ));
}

proof fn lemma_non_keys_are_the_others(columns: Seq<Seq<char>>, keys: Seq<Seq<char>>)
    ensures
        non_keys(columns, keys) == columns.filter(|column: Seq<char>| !keys.contains(column)),
    decreases columns.len(),
{
    reveal(Seq::filter);
    if columns.len() > 0 {
        lemma_non_keys_are_the_others(columns.drop_last(), keys);
    }
}

/// A merge updates the existing record of every match and inserts the others. It
/// compares all merge keys. Where the table has a column that is no key, the
/// statement sets every such column, and no key, from the staged record; where
/// every column is a key it updates nothing. A record without a match is inserted
/// with all columns of the table, each from the staged record's column of its name.
pub proof fn law_merge_updates_matches_and_inserts_the_others(
    session: DuckDbMergeSession,
    columns: Vec<String>,
    equality: String,
    statement: String,
)
    requires
        call_ensures(DuckDbMergeSession::key_equality, (&session,), equality),
        call_ensures(DuckDbMergeSession::merge_sql, (&session, &columns), statement),
    ensures
        ({
            let target = "MERGE INTO "@ + quoted(session.table.dataset@)
                + " AS merge_target USING temp.main."@ + quoted(session.stage@)
                + " AS merge_source ON "@ + equality@;
            let others = texts(columns@).filter(
                |column: Seq<char>| !is_merge_key(session, column),
            );
            let assignments = Seq::new(
                others.len(),
                |i: int| quoted(others[i]) + " = merge_source."@ + quoted(others[i]),
            );
            let names = Seq::new(columns@.len(), |i: int| quoted(columns@[i]@));
            let values = Seq::new(
                columns@.len(),
                |i: int| "merge_source."@ + quoted(columns@[i]@),
            );
            let insertion = " WHEN NOT MATCHED THEN INSERT ("@ + separated(names, ", "@)
                + ") VALUES ("@ + separated(values, ", "@) + ")"@;
            &&& others.len() > 0 ==> statement@ == target + " WHEN MATCHED THEN UPDATE SET "@
                + separated(assignments, ", "@) + insertion
            &&& others.len() == 0 ==> statement@ == target + insertion
            &&& forall|i: int|
                0 <= i < columns@.len() ==> (others.contains((#[trigger] columns@[i])@)
                    <==> !is_merge_key(session, columns@[i]@))
            &&& others.len() == 0 <==> forall|i: int|
                0 <= i < columns@.len() ==> is_merge_key(session, (#[trigger] columns@[i])@)
        }),
{
    let all = texts(columns@);
    let keys = texts(session.merge_keys@);
    let is_other = |column: Seq<char>| !is_merge_key(session, column);
    let others = all.filter(is_other);
    assert(is_other =~= (|column: Seq<char>| !keys.contains(column))) by {
        assert forall|column: Seq<char>| #[trigger] is_other(column) == !keys.contains(column) by {
            lemma_merge_keys(session, column);
        }
    }
    lemma_non_keys_are_the_others(all, keys);
    assert(non_keys(all, keys) == others);
    let assignments = Seq::new(
        others.len(),
        |i: int| quoted(others[i]) + " = merge_source."@ + quoted(others[i]),
    );
    assert(non_keys(all, keys).map_values(|column: Seq<char>| assignment_text(column))
        =~= assignments);
    let names = Seq::new(columns@.len(), |i: int| quoted(columns@[i]@));
    let values = Seq::new(columns@.len(), |i: int| "merge_source."@ + quoted(columns@[i]@));
    assert(all_quoted(all) =~= names);
    assert(all.map_values(|column: Seq<char>| staged_column_text(column)) =~= values);
    reveal_strlit(" AS merge_target USING temp.main.");
    reveal_strlit(" AS merge_target USING ");
    reveal_strlit("temp.main.");
    assert(" AS merge_target USING temp.main."@ =~= " AS merge_target USING "@ + "temp.main."@);
    let target = "MERGE INTO "@ + quoted(session.table.dataset@)
        + " AS merge_target USING temp.main."@ + quoted(session.stage@)
        + " AS merge_source ON "@ + equality@;
    let insertion = " WHEN NOT MATCHED THEN INSERT ("@ + separated(names, ", "@) + ") VALUES ("@
        + separated(values, ", "@) + ")"@;
    if others.len() > 0 {
        assert(statement@ =~= target + " WHEN MATCHED THEN UPDATE SET "@ + separated(
            assignments,
            ", "@,
        ) + insertion);
    } else {
        assert(statement@ =~= target + insertion);
    }
    law_merge_updates_every_non_key(all, keys);
    assert forall|i: int| 0 <= i < columns@.len() implies (others.contains(
        (#[trigger] columns@[i])@,
    ) <==> !is_merge_key(session, columns@[i]@)) by {
        assert(all[i] == columns@[i]@);
        assert(all.contains(all[i]));
        lemma_merge_keys(session, columns@[i]@);
        assert(non_keys(all, keys).contains(all[i]) <==> all.contains(all[i]) && !keys.contains(
            all[i],
        ));
    }
    if others.len() > 0 {
        assert(others.contains(others[0]));
        assert(non_keys(all, keys).contains(others[0]));
        let i = choose|i: int| 0 <= i < all.len() && all[i] == others[0];
        lemma_merge_keys(session, columns@[i]@);
        assert(columns@[i]@ == others[0]);
        assert(!is_merge_key(session, columns@[i]@));
    }
}

/// Staged records collide where they agree on all merge keys, and only staged
/// records are looked at.
pub proof fn law_collisions_are_counted_over_all_keys(
    session: DuckDbMergeSession,
    query: String,
)
    requires
        call_ensures(DuckDbMergeSession::colliding_records_sql, (&session,), query),
    ensures
        query@ == "SELECT count(*) FROM (SELECT count(*) OVER (PARTITION BY "@ + separated(
            Seq::new(session.merge_keys@.len(), |i: int| quoted(session.merge_keys@[i]@)),
            ", "@,
        ) + ") AS key_tuple_records FROM "@ + ("temp.main."@ + quoted(session.stage@))
            + ") AS keyed WHERE key_tuple_records > 1"@,
{
    assert(all_quoted(texts(session.merge_keys@)) =~= Seq::new(
        session.merge_keys@.len(),
        |i: int| quoted(session.merge_keys@[i]@),
    ));
}

/// A staged record counts as matched where the table holds a record with equal
/// keys, by the same comparison that the merge makes.
pub proof fn law_matches_are_counted_as_the_merge_makes_them(
    session: DuckDbMergeSession,
    equality: String,
    query: String,
)
    requires
        call_ensures(DuckDbMergeSession::key_equality, (&session,), equality),
        call_ensures(DuckDbMergeSession::matched_records_sql, (&session,), query),
    ensures
        query@ == "SELECT count(*) FROM "@ + ("temp.main."@ + quoted(session.stage@))
            + " AS merge_source WHERE EXISTS (SELECT 1 FROM "@ + quoted(session.table.dataset@)
            + " AS merge_target WHERE "@ + equality@ + ")"@,
{
}

/// The stage of a merge is a temporary table with the columns of the table that is
/// merged into and no records. Its chunks go into it, and none into the table.
pub proof fn law_merge_is_staged_in_a_temporary_table(
    session: DuckDbMergeSession,
    reference: String,
    creation: String,
    insertion: String,
)
    requires
        call_ensures(DuckDbMergeSession::stage_reference, (&session,), reference),
        call_ensures(DuckDbMergeSession::stage_statement, (&session,), creation),
        call_ensures(DuckDbMergeSession::chunk_statement, (&session,), insertion),
    ensures
        reference@ == "temp.main."@ + quoted(session.stage@),
        creation@ == "CREATE TEMPORARY TABLE "@ + quoted(session.stage@) + " AS SELECT * FROM "@
            + quoted(session.table.dataset@) + " LIMIT 0"@,
        insertion@ == "INSERT INTO "@ + reference@ + " BY NAME SELECT * FROM arrow(?, ?)"@,
{
}

/// A new merge has staged nothing. A staged chunk counts once, with its records, and
/// changes nothing else of the session.
pub proof fn law_merge_counts_every_staged_chunk(
    table: DuckDbTable,
    merge_keys: Vec<String>,
    stage: String,
    fresh: DuckDbMergeSession,
    session: &mut DuckDbMergeSession,
    rows: u64,
)
    requires
        call_ensures(DuckDbMergeSession::new, (table, merge_keys, stage), fresh),
        call_ensures(DuckDbMergeSession::chunk_staged, (session, rows), ()),
        old(session).staged_chunks < u64::MAX,
        old(session).staged_records + rows <= u64::MAX,
    ensures
        fresh.table == table && fresh.merge_keys == merge_keys && fresh.stage == stage,
        fresh.staged_chunks == 0 && fresh.staged_records == 0,
        final(session).staged_chunks == old(session).staged_chunks + 1,
        final(session).staged_records == old(session).staged_records + rows,
        final(session).table == old(session).table,
        final(session).merge_keys == old(session).merge_keys,
        final(session).stage == old(session).stage,
{
}

/// A chunk of a merge is aligned first and staged as it was aligned, once. A failure
/// of either leaves the destination as it was.
pub proof fn law_merge_chunk_is_aligned_then_staged<
    B,
    A: FnOnce() -> Result<B, LoadFailure>,
    N: FnOnce(&str, &B) -> Result<(), String>,
>(
    session: DuckDbMergeSession,
    align: A,
    insert: N,
    statement: String,
    written: Result<(), DestinationWriteFailure>,
)
    requires
        call_ensures(DuckDbMergeSession::chunk_statement, (&session,), statement),
        call_ensures(
            DuckDbMergeSession::write_chunk::<B, A, N>,
            (&session, align, insert),
            written,
        ),
    ensures
        exists|aligned: Result<B, LoadFailure>|
            {
                &&& #[trigger] align.ensures((), aligned)
                &&& aligned matches Err(failure) ==> (written matches Err(raised)
                    && raised.failure.code@ == failure.code@ && raised.failure.message@
                    == failure.message@)
                &&& aligned matches Ok(batch) ==> exists|ran: &str, inserted: Result<(), String>|
                    {
                        &&& #[trigger] insert.ensures((ran, &batch), inserted)
                        &&& ran@ == statement@
                        &&& inserted is Ok <==> written is Ok
                        &&& inserted matches Err(error) ==> written->Err_0.failure.message@
                            == "failed to "@ + "stage merge records for"@ + " DuckDB table "@ + (
                        session.table.dataset@ + " in "@ + session.table.path@) + ": "@ + error@
                    }
            },
        written matches Err(raised) ==> {
            &&& raised.written_records == 0 && raised.committed_chunks == 0
            &&& raised.facts.atomicity@ == "atomic"@
            &&& raised.facts.strategy matches Some(strategy) && strategy@ == "transactional_merge"@
            &&& raised.facts.merge is None
            &&& raised.transience == Transience::Terminal
        },
{
}

/// The commit of a merge starts by looking for colliding keys. At every stage it
/// does that stage's one thing: it counts the collisions, counts the matches,
/// merges, commits, and closes the database.
pub proof fn law_merge_commit_does_one_thing_at_a_time(
    session: DuckDbMergeSession,
    columns: Vec<String>,
    fresh: MergeCommit,
    commit: MergeCommit,
    action: MergeAction,
    collisions: String,
    matches: String,
    merging: String,
)
    requires
        call_ensures(MergeCommit::new, (session, columns), fresh),
        call_ensures(MergeCommit::action, (&commit,), action),
        call_ensures(
            DuckDbMergeSession::colliding_records_sql,
            (&commit.session,),
            collisions,
        ),
        call_ensures(DuckDbMergeSession::matched_records_sql, (&commit.session,), matches),
        call_ensures(DuckDbMergeSession::merge_sql, (&commit.session, &commit.columns), merging),
    ensures
        fresh.stage is CheckKeys && fresh.session == session && fresh.columns == columns,
        commit.stage is CheckKeys ==> (action matches MergeAction::Query(text) && text@
            == collisions@),
        commit.stage is CountMatched ==> (action matches MergeAction::Query(text) && text@
            == matches@),
        commit.stage is Merge ==> (action matches MergeAction::Execute(text) && text@ == merging@),
        commit.stage is Commit ==> (action matches MergeAction::Execute(text) && text@
            == "COMMIT"@),
        commit.stage is Close ==> action is Close,
{
}

/// Staged records that share their keys end the commit before anything is merged,
/// with the destination as it was. Without any, the matches are counted, and the
/// staged records are parted into those that match, which are updated, and the
/// others, which are inserted.
pub proof fn law_merge_needs_distinct_keys_and_parts_the_records(
    commit: MergeCommit,
    reply: Result<i64, String>,
    next: Result<MergeCommit, DestinationWriteFailure>,
)
    requires
        call_ensures(MergeCommit::counted, (commit, reply), next),
        commit.stage is CheckKeys || commit.stage is CountMatched,
        commit.stage is CountMatched ==> (reply matches Ok(matched) ==> 0 <= matched
            <= commit.session.staged_records),
    ensures
        next is Ok <==> (reply matches Ok(count) && (commit.stage is CountMatched || count <= 0)),
        next matches Ok(on) ==> {
            &&& on.session == commit.session && on.columns == commit.columns
            &&& commit.stage is CheckKeys ==> on.stage is CountMatched
            &&& commit.stage is CountMatched ==> (on.stage matches MergeStage::Merge { counts }
                && counts.updated == reply->Ok_0 && counts.updated + counts.inserted
                == commit.session.staged_records)
        },
        next matches Err(raised) ==> {
            &&& raised.written_records == 0 && raised.committed_chunks == 0
            &&& raised.facts.atomicity@ == "atomic"@ && raised.facts.merge is None
            &&& raised.facts.strategy matches Some(strategy) && strategy@ == "transactional_merge"@
            &&& raised.transience == Transience::Terminal
            &&& reply matches Ok(colliding) ==> raised.failure.code@ == "duplicate_merge_keys"@
                && raised.failure.message@ == decimal(colliding as nat)
                + " surviving records share a merge key tuple with another surviving record for DuckDB table "@
                + (commit.session.table.dataset@ + " in "@ + commit.session.table.path@)
            &&& reply matches Err(error) ==> raised.failure.code@ == "destination_write_failed"@
                && raised.failure.message@ == "failed to "@ + (if commit.stage is CheckKeys {
                "check merge key uniqueness for"@
            } else {
                "count matched merge records for"@
            }) + " DuckDB table "@ + (commit.session.table.dataset@ + " in "@
                + commit.session.table.path@) + ": "@ + error@
        },
{
}

/// A merge goes from merging to committing to closing, and succeeds once all three
/// went well, with the partition it counted before. A failure before the commit
/// leaves the destination as it was; one after it reports every staged record.
pub proof fn law_merge_reports_its_partition_once_committed(
    commit: MergeCommit,
    reply: Result<(), String>,
    progress: MergeProgress,
)
    requires
        call_ensures(MergeCommit::executed, (commit, reply), progress),
        !(commit.stage is CheckKeys) && !(commit.stage is CountMatched),
    ensures
        progress is Failed <==> reply is Err,
        progress is Committed <==> commit.stage is Close && reply is Ok,
        progress matches MergeProgress::Next(on) ==> {
            &&& on.session == commit.session && on.columns == commit.columns
            &&& commit.stage matches MergeStage::Merge { counts } ==> on.stage
                == (MergeStage::Commit { counts })
            &&& commit.stage matches MergeStage::Commit { counts } ==> on.stage
                == (MergeStage::Close { counts })
        },
        progress matches MergeProgress::Committed(write) ==> {
            &&& write.bytes_written is None
            &&& write.facts.atomicity@ == "atomic"@
            &&& write.facts.strategy matches Some(strategy) && strategy@ == "transactional_merge"@
            &&& write.facts.merge == Some(commit.stage->Close_counts)
        },
        progress matches MergeProgress::Failed(raised) ==> {
            &&& raised.failure.code@ == "destination_write_failed"@
            &&& raised.facts.atomicity@ == "atomic"@ && raised.facts.merge is None
            &&& raised.facts.strategy matches Some(strategy) && strategy@ == "transactional_merge"@
            &&& raised.transience == Transience::Terminal
            &&& commit.stage is Close ==> raised.written_records == commit.session.staged_records
                && raised.committed_chunks == commit.session.staged_chunks
                && raised.failure.message@ == "failed to close DuckDB database "@
                + commit.session.table.path@ + ": "@ + reply->Err_0@
            &&& !(commit.stage is Close) ==> raised.written_records == 0 && raised.committed_chunks
                == 0 && raised.failure.message@ == "failed to "@ + (if commit.stage is Merge {
                "merge into"@
            } else {
                "commit the merge of"@
            }) + " DuckDB table "@ + (commit.session.table.dataset@ + " in "@
                + commit.session.table.path@) + ": "@ + reply->Err_0@
        },
{
}

/// A failed replacement or merge of a table tells what was tried on which table and
/// why, and that the transaction left the table as it was. A failed append tells what
/// was committed before it.
pub proof fn law_failed_writes_tell_what_is_left(
    table: DuckDbTable,
    error: &str,
    action: &str,
    refresh: DuckDbFullRefreshSession,
    append: DuckDbAppendSession,
    merge: DuckDbMergeSession,
    unreplaced: DestinationWriteFailure,
    uncommitted: DestinationWriteFailure,
    unappended: DestinationWriteFailure,
    unstaged: LoadFailure,
    unmerged: DestinationWriteFailure,
)
    requires
        call_ensures(
            DuckDbFullRefreshSession::replace_failure,
            (&refresh, &table, error),
            unreplaced,
        ),
        call_ensures(
            DuckDbFullRefreshSession::commit_failure,
            (&refresh, &table, error),
            uncommitted,
        ),
        call_ensures(DuckDbAppendSession::append_failure, (&append, &table, error), unappended),
        call_ensures(DuckDbMergeSession::stage_failure, (&merge, error), unstaged),
        call_ensures(DuckDbMergeSession::write_failure, (&merge, action, error), unmerged),
    ensures
        ({
            let place = table.dataset@ + " in "@ + table.path@;
            let merged = merge.table.dataset@ + " in "@ + merge.table.path@;
            &&& unreplaced.failure.message@ == "failed to replace DuckDB table "@ + place + ": "@
                + error@
            &&& uncommitted.failure.message@ == "failed to commit the DuckDB replace of table "@
                + place + ": "@ + error@
            &&& unappended.failure.message@ == "failed to append to DuckDB table "@ + place + ": "@
                + error@
            &&& unstaged.message@ == "failed to create the DuckDB merge stage for table "@ + merged
                + ": "@ + error@
            &&& unmerged.failure.message@ == "failed to "@ + action@ + " DuckDB table "@ + merged
                + ": "@ + error@
        }),
        unreplaced.failure.code@ == "destination_write_failed"@,
        uncommitted.failure.code@ == "destination_write_failed"@,
        unappended.failure.code@ == "destination_write_failed"@,
        unstaged.code@ == "destination_write_failed"@,
        unmerged.failure.code@ == "destination_write_failed"@,
        unreplaced.facts.atomicity@ == "atomic"@ && unreplaced.facts.merge is None,
        unreplaced.facts.strategy is Some && unreplaced.facts.strategy->0@
            == "transactional_replace"@,
        unreplaced.written_records == 0 && unreplaced.committed_chunks == 0,
        unreplaced.transience == Transience::Terminal,
        uncommitted.facts == unreplaced.facts,
        uncommitted.written_records == 0 && uncommitted.committed_chunks == 0,
        uncommitted.transience == Transience::Terminal,
        unmerged.facts.atomicity@ == "atomic"@ && unmerged.facts.merge is None,
        unmerged.facts.strategy is Some && unmerged.facts.strategy->0@ == "transactional_merge"@,
        unmerged.written_records == 0 && unmerged.committed_chunks == 0,
        unmerged.transience == Transience::Terminal,
        unappended.facts.atomicity@ == "best_effort"@ && unappended.facts.merge is None,
        unappended.facts.strategy is Some && unappended.facts.strategy->0@ == "insert"@,
        unappended.written_records == append.written_records,
        unappended.committed_chunks == append.committed_chunks,
        unappended.transience == Transience::Terminal,
{
    assert(unreplaced.failure@.code == unreplaced.failure.code@ && unreplaced.failure@.message
        == unreplaced.failure.message@);
    assert(uncommitted.failure@.code == uncommitted.failure.code@ && uncommitted.failure@.message
        == uncommitted.failure.message@);
    assert(unappended.failure@.code == unappended.failure.code@ && unappended.failure@.message
        == unappended.failure.message@);
    assert(unstaged@.code == unstaged.code@ && unstaged@.message == unstaged.message@);
    assert(unmerged.failure@.code == unmerged.failure.code@ && unmerged.failure@.message
        == unmerged.failure.message@);
}

} // verus!
