//! Fresh random tokens for names that must not collide.
use uuid::Uuid;
use vstd::prelude::*;
use vstd::string::*;

verus! {

/// Whether a character is a lower-case hexadecimal digit.
pub open spec fn is_hex_digit(c: char) -> bool {
    ('0' <= c && c <= '9') || ('a' <= c && c <= 'f')
}

/// Whether a text is 32 hexadecimal digits.
pub open spec fn is_plain_token(text: Seq<char>) -> bool {
    text.len() == 32 && forall|i: int| 0 <= i < text.len() ==> is_hex_digit(#[trigger] text[i])
}

/// Whether a text is 32 hexadecimal digits in five groups, with hyphens
/// between them.
pub open spec fn is_grouped_token(text: Seq<char>) -> bool {
    text.len() == 36 && forall|i: int|
        0 <= i < text.len() ==> if i == 8 || i == 13 || i == 18 || i == 23 {
            #[trigger] text[i] == '-'
        } else {
            is_hex_digit(text[i])
        }
}

/// `Uuid::new_v4` and its `Display`: a random token in its grouped notation.
#[verifier::external_body]
pub(crate) fn fresh_grouped_token() -> (token: String)
    ensures
        is_grouped_token(token@),
{
    Uuid::new_v4().to_string()
}

/// `Uuid::new_v4` and `Uuid::simple`: a random token without hyphens.
#[verifier::external_body]
pub(crate) fn fresh_plain_token() -> (token: String)
    ensures
        is_plain_token(token@),
{
    Uuid::new_v4().simple().to_string()
}

/// A fresh load id.
pub fn new_load_id() -> (id: String)
    ensures
        is_grouped_token(id@),
{
    fresh_grouped_token()
}

/// The name of a merge session's stage, which a token keeps apart from those
/// of other sessions.
pub fn merge_stage_name(token: &str) -> (name: String)
    ensures
        name@ == "data_spark_merge_stage_"@ + token@,
{
    "data_spark_merge_stage_".to_owned().concat(token)
}

/// A fresh name of a merge session's stage.
pub fn new_merge_stage() -> (name: String)
    ensures
        exists|token: Seq<char>|
            #[trigger] is_plain_token(token) && name@ == "data_spark_merge_stage_"@ + token,
{
    let token = fresh_plain_token();
    merge_stage_name(token.as_str())
}

/// The name of the directory that a full refresh is staged in, beside the
/// destination.
pub fn staging_directory_name(destination_name: Option<&str>, token: &str) -> (name: String)
    ensures
        name@ == "."@ + match destination_name {
            Some(destination_name) => destination_name@,
            None => "dataset"@,
        } + ".data-spark-staging-"@ + token@,
{
    let destination_name = match destination_name {
        Some(destination_name) => destination_name,
        None => "dataset",
    };
    ".".to_owned().concat(destination_name).concat(".data-spark-staging-").concat(token)
}

/// A fresh name of the directory that a full refresh is staged in.
pub fn new_staging_directory(destination_name: Option<&str>) -> (name: String)
    ensures
        exists|token: Seq<char>|
            {
                &&& #[trigger] is_grouped_token(token)
                &&& name@ == "."@ + match destination_name {
                    Some(destination_name) => destination_name@,
                    None => "dataset"@,
                } + ".data-spark-staging-"@ + token
            },
{
    let token = fresh_grouped_token();
    staging_directory_name(destination_name, token.as_str())
}

/// The file names of an appended part: where it is staged, and where it is
/// committed.
#[derive(Debug)]
pub struct PartNames {
    pub staged: String,
    pub committed: String,
}

/// The file names of an appended part. The staged one has no data extension,
/// so that no reader takes it for a part.
pub fn part_names(token: &str) -> (names: PartNames)
    ensures
        names.staged@ == ".part-"@ + token@ + ".data-spark-staging.tmp"@,
        names.committed@ == "part-"@ + token@ + ".parquet"@,
{
    PartNames {
        staged: ".part-".to_owned().concat(token).concat(".data-spark-staging.tmp"),
        committed: "part-".to_owned().concat(token).concat(".parquet"),
    }
}

/// Fresh file names of an appended part.
pub fn new_part_names() -> (names: PartNames)
    ensures
        exists|token: Seq<char>|
            {
                &&& #[trigger] is_grouped_token(token)
                &&& names.staged@ == ".part-"@ + token + ".data-spark-staging.tmp"@
                &&& names.committed@ == "part-"@ + token + ".parquet"@
            },
{
    let token = fresh_grouped_token();
    part_names(token.as_str())
}

/// What a session stages never takes the place of what it commits, and two tokens
/// never lead to one name: a stage, a staging directory, a staged part and a
/// committed part each carry their token whole.
pub proof fn law_names_keep_tokens_apart(
    a: &str,
    b: &str,
    stage_a: String,
    stage_b: String,
    parts_a: PartNames,
    parts_b: PartNames,
)
    requires
        call_ensures(merge_stage_name, (a,), stage_a),
        call_ensures(merge_stage_name, (b,), stage_b),
        call_ensures(part_names, (a,), parts_a),
        call_ensures(part_names, (b,), parts_b),
    ensures
        stage_a@ == stage_b@ <==> a@ == b@,
        parts_a.staged@ == parts_b.staged@ <==> a@ == b@,
        parts_a.committed@ == parts_b.committed@ <==> a@ == b@,
        parts_a.staged@ != parts_b.committed@,
        stage_a@ == "data_spark_merge_stage_"@ + a@,
        parts_a.staged@ == ".part-"@ + a@ + ".data-spark-staging.tmp"@,
        parts_a.committed@ == "part-"@ + a@ + ".parquet"@,
{
    reveal_strlit("data_spark_merge_stage_");
    reveal_strlit(".part-");
    reveal_strlit("part-");
    reveal_strlit(".data-spark-staging.tmp");
    reveal_strlit(".parquet");
    let long = "data_spark_merge_stage_"@.len() as int;
    assert(stage_a@.skip(long) =~= a@);
    assert(stage_b@.skip(long) =~= b@);
    let cut = ".part-"@.len() as int;
    let tail = ".data-spark-staging.tmp"@.len() as int;
    assert(parts_a.staged@.subrange(cut, parts_a.staged@.len() - tail) =~= a@);
    assert(parts_b.staged@.subrange(cut, parts_b.staged@.len() - tail) =~= b@);
    let head = "part-"@.len() as int;
    let extension = ".parquet"@.len() as int;
    assert(parts_a.committed@.subrange(head, parts_a.committed@.len() - extension) =~= a@);
    assert(parts_b.committed@.subrange(head, parts_b.committed@.len() - extension) =~= b@);
    assert(parts_a.staged@[0] == '.');
    assert(parts_b.committed@[0] == 'p');
}

/// A full refresh is staged in a hidden directory that names its destination, or a
/// dataset where the destination has no name, and carries a token.
pub proof fn law_staging_directory_is_hidden_beside_its_destination(
    destination_name: Option<&str>,
    token: &str,
    name: String,
)
    requires
        call_ensures(staging_directory_name, (destination_name, token), name),
    ensures
        name@.first() == '.',
        destination_name matches Some(known) ==> name@ == "."@ + known@ + ".data-spark-staging-"@
            + token@,
        destination_name is None ==> name@ == "."@ + "dataset"@ + ".data-spark-staging-"@ + token@,
{
    reveal_strlit(".");
}

/// Fresh names are made of a fresh token: 32 lower-case hexadecimal digits, in five
/// groups where it stands in a load id, a directory or a part.
pub proof fn law_fresh_names_carry_a_token(
    id: String,
    stage: String,
    parts: PartNames,
    destination_name: Option<&str>,
    directory: String,
)
    requires
        call_ensures(new_load_id, (), id),
        call_ensures(new_merge_stage, (), stage),
        call_ensures(new_part_names, (), parts),
        call_ensures(new_staging_directory, (destination_name,), directory),
    ensures
        id@.len() == 36,
        forall|i: int|
            0 <= i < 36 ==> if i == 8 || i == 13 || i == 18 || i == 23 {
                #[trigger] id@[i] == '-'
            } else {
                '0' <= id@[i] <= '9' || 'a' <= id@[i] <= 'f'
            },
        stage@.len() == "data_spark_merge_stage_"@.len() + 32,
        "data_spark_merge_stage_"@.is_prefix_of(stage@),
        exists|token: Seq<char>|
            {
                &&& token.len() == 36
                &&& #[trigger] is_grouped_token(token)
                &&& parts.staged@ == ".part-"@ + token + ".data-spark-staging.tmp"@
                &&& parts.committed@ == "part-"@ + token + ".parquet"@
            },
        exists|token: Seq<char>|
            {
                &&& token.len() == 36
                &&& #[trigger] is_grouped_token(token)
                &&& directory@ == "."@ + (if destination_name is Some {
                    destination_name->0@
                } else {
                    "dataset"@
                }) + ".data-spark-staging-"@ + token
            },
{
    assert("data_spark_merge_stage_"@ =~= stage@.take("data_spark_merge_stage_"@.len() as int));
}

} // verus!
