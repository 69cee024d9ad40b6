//! Text building blocks: comparison, decimal numbers, joining, blankness.
use vstd::prelude::*;
use vstd::std_specs::iter::IteratorSpec;
use vstd::string::*;

verus! {

/// `String::push` appends one character to the end of the string.
pub assume_specification[ String::push ](text: &mut String, c: char)
    ensures
        final(text)@ == old(text)@.push(c),
;

/// Whether two texts hold the same characters.
pub fn same_text(a: &str, b: &str) -> (same: bool)
    ensures
        same == (a@ == b@),
{
    a.to_owned() == b.to_owned()
}

/// The character of a decimal digit.
pub open spec fn digit_char(d: nat) -> char {
    ((48 + d % 10) as u8) as char
}

/// The decimal notation of a number, without sign or leading zeros.
pub open spec fn decimal(n: nat) -> Seq<char>
    decreases n,
{
    if n < 10 {
        seq![digit_char(n)]
    } else {
        decimal(n / 10).push(digit_char(n % 10))
    }
}

/// Writes a number in decimal notation.
pub fn decimal_text(n: u64) -> (text: String)
    ensures
        text@ == decimal(n as nat),
    decreases n,
{
    let mut text = if n < 10 {
        String::new()
    } else {
        decimal_text(n / 10)
    };
    let digit: u8 = 48 + (n % 10) as u8;
    proof {
        assert(((48 + (n as nat % 10) % 10) as u8) == digit);
        if n < 10 {
            assert(Seq::<char>::empty().push(digit as char) =~= seq![digit as char]);
        }
    }
    text.push(digit as char);
    text
}

/// Numbers with the same decimal notation are the same.
pub proof fn law_decimal_is_injective(a: nat, b: nat)
    requires
        decimal(a) == decimal(b),
    ensures
        a == b,
    decreases a,
{
    assert(decimal(a).last() == digit_char(a % 10));
    assert(decimal(b).last() == digit_char(b % 10));
    assert(digit_char(a % 10) as u32 == 48 + a % 10);
    assert(digit_char(b % 10) as u32 == 48 + b % 10);
    if a >= 10 && b >= 10 {
        assert(decimal(a).drop_last() =~= decimal(a / 10));
        assert(decimal(b).drop_last() =~= decimal(b / 10));
        law_decimal_is_injective(a / 10, b / 10);
    } else {
        lemma_decimal_len(a);
        lemma_decimal_len(b);
    }
}

proof fn lemma_decimal_len(n: nat)
    ensures
        decimal(n).len() >= 1,
        n >= 10 ==> decimal(n).len() >= 2,
        n < 10 ==> decimal(n).len() == 1,
    decreases n,
{
    if n >= 10 {
        lemma_decimal_len(n / 10);
    }
}

/// The views of a list of strings.
pub open spec fn texts(items: Seq<String>) -> Seq<Seq<char>> {
    items.map_values(|s: String| s@)
}

/// The characters of a text, where there is one.
pub open spec fn text_view(text: Option<String>) -> Option<Seq<char>> {
    match text {
        Some(text) => Some(text@),
        None => None,
    }
}

/// The items one after another with a separator between neighbours.
pub open spec fn separated(items: Seq<Seq<char>>, separator: Seq<char>) -> Seq<char>
    decreases items.len(),
{
    if items.len() == 0 {
        Seq::empty()
    } else if items.len() == 1 {
        items[0]
    } else {
        separated(items.drop_last(), separator) + separator + items.last()
    }
}

/// Joins the items with a separator between neighbours.
pub fn separated_text(items: &Vec<String>, separator: &str) -> (text: String)
    ensures
        text@ == separated(texts(items@), separator@),
{
    let mut text = String::new();
    let mut i: usize = 0;
    while i < items.len()
        invariant
            i <= items.len(),
            text@ == separated(texts(items@.take(i as int)), separator@),
        decreases items.len() - i,
    {
        let ghost before = texts(items@.take(i as int));
        let ghost after = texts(items@.take(i as int + 1));
        proof {
            assert(after.drop_last() =~= before);
            assert(after.last() == items@[i as int]@);
        }
        if i > 0 {
            text.append(separator);
        }
        text.append(items[i].as_str());
        proof {
            if i == 0 {
                assert(text@ =~= items@[0]@);
            }
        }
        i = i + 1;
    }
    proof {
        assert(items@.take(items@.len() as int) =~= items@);
    }
    text
}

/// Whether a list of strings holds a text.
pub fn contains_text(items: &Vec<String>, text: &str) -> (found: bool)
    ensures
        found == texts(items@).contains(text@),
{
    let mut i: usize = 0;
    while i < items.len()
        invariant
            i <= items.len(),
            forall|j: int| 0 <= j < i ==> texts(items@)[j] != text@,
        decreases items.len() - i,
    {
        if same_text(items[i].as_str(), text) {
            proof {
                assert(texts(items@)[i as int] == text@);
            }
            return true;
        }
        i = i + 1;
    }
    false
}

/// The characters with the Unicode `White_Space` property.
pub open spec fn is_white_space(c: char) -> bool {
    ||| '\u{9}' <= c <= '\u{d}'
    ||| c == '\u{20}'
    ||| c == '\u{85}'
    ||| c == '\u{a0}'
    ||| c == '\u{1680}'
    ||| '\u{2000}' <= c <= '\u{200a}'
    ||| c == '\u{2028}'
    ||| c == '\u{2029}'
    ||| c == '\u{202f}'
    ||| c == '\u{205f}'
    ||| c == '\u{3000}'
}

/// A text is blank when it holds nothing but white space.
pub open spec fn blank(text: Seq<char>) -> bool {
    forall|i: int| 0 <= i < text.len() ==> is_white_space(#[trigger] text[i])
}

fn white_space(c: char) -> (white: bool)
    ensures
        white == is_white_space(c),
{
    ('\u{9}' <= c && c <= '\u{d}') || c == '\u{20}' || c == '\u{85}' || c == '\u{a0}' || c
        == '\u{1680}' || ('\u{2000}' <= c && c <= '\u{200a}') || c == '\u{2028}' || c == '\u{2029}'
        || c == '\u{202f}' || c == '\u{205f}' || c == '\u{3000}'
}

/// Whether a text is blank.
pub fn is_blank(text: &str) -> (is: bool)
    ensures
        is == blank(text@),
{
    let mut rest = text.chars();
    let ghost mut i: int = 0;
    loop
        invariant
            0 <= i <= text@.len(),
            rest.remaining() == text@.skip(i),
            rest.obeys_prophetic_iter_laws(),
            rest.decrease() is Some,
            forall|j: int| 0 <= j < i ==> is_white_space(#[trigger] text@[j]),
        decreases rest.decrease()->0,
    {
        match rest.next() {
            None => {
                return true;
            },
            Some(c) => {
                assert(c == text@[i]);
                if !white_space(c) {
                    return false;
                }
                proof {
                    i = i + 1;
                }
            },
        }
    }
}

/// Whether a text holds a character.
pub fn contains_char(text: &str, wanted: char) -> (found: bool)
    ensures
        found == text@.contains(wanted),
{
    let mut rest = text.chars();
    let ghost mut i: int = 0;
    loop
        invariant
            0 <= i <= text@.len(),
            rest.remaining() == text@.skip(i),
            rest.obeys_prophetic_iter_laws(),
            rest.decrease() is Some,
            forall|j: int| 0 <= j < i ==> text@[j] != wanted,
        decreases rest.decrease()->0,
    {
        match rest.next() {
            None => {
                return false;
            },
            Some(c) => {
                assert(c == text@[i]);
                if c == wanted {
                    return true;
                }
                proof {
                    i = i + 1;
                }
            },
        }
    }
}

/// A file path below a directory: an absolute name stands alone, and a
/// separator is put between the two parts only where none is there yet.
pub open spec fn joined_path(dir: Seq<char>, name: Seq<char>) -> Seq<char> {
    if name.len() > 0 && name[0] == '/' {
        name
    } else if dir.len() == 0 || dir.last() == '/' {
        dir + name
    } else {
        dir.push('/') + name
    }
}

/// Joins a directory and a name below it.
pub fn join_path(dir: &str, name: &str) -> (path: String)
    ensures
        path@ == joined_path(dir@, name@),
{
    let name_len: usize = name.unicode_len();
    if name_len > 0 && name.get_char(0) == '/' {
        return name.to_owned();
    }
    let dir_len: usize = dir.unicode_len();
    let mut path = dir.to_owned();
    if dir_len > 0 && dir.get_char(dir_len - 1) != '/' {
        path.push('/');
    }
    path.append(name);
    path
}

/// The position of the last occurrence of a character, or -1.
pub open spec fn last_position(text: Seq<char>, wanted: char) -> int
    decreases text.len(),
{
    if text.len() == 0 {
        -1
    } else if text.last() == wanted {
        text.len() - 1
    } else {
        last_position(text.drop_last(), wanted)
    }
}

/// The last name in a path: empty names and single dots are passed over, and
/// a path that ends in two dots has none.
pub open spec fn file_name(path: Seq<char>) -> Option<Seq<char>>
    decreases path.len(),
{
    let cut = last_position(path, '/');
    let name = path.skip(cut + 1);
    if name == seq!['.', '.'] {
        None
    } else if name.len() > 0 && name != seq!['.'] {
        Some(name)
    } else if 0 <= cut < path.len() {
        file_name(path.take(cut))
    } else {
        None
    }
}

/// What follows the last dot of a path's file name, where the dot is not the
/// name's first character.
pub open spec fn file_extension(path: Seq<char>) -> Option<Seq<char>> {
    match file_name(path) {
        Some(name) => if last_position(name, '.') > 0 {
            Some(name.skip(last_position(name, '.') + 1))
        } else {
            None
        },
        None => None,
    }
}

/// The position behind the last occurrence of a character, or zero.
fn behind_last(text: &str, wanted: char) -> (behind: usize)
    ensures
        behind == last_position(text@, wanted) + 1,
        behind <= text@.len(),
{
    let mut end: usize = text.unicode_len();
    proof {
        assert(text@.take(end as int) =~= text@);
    }
    while end > 0 && text.get_char(end - 1) != wanted
        invariant
            end <= text@.len(),
            last_position(text@.take(end as int), wanted) == last_position(text@, wanted),
        decreases end,
    {
        proof {
            assert(text@.take(end as int).drop_last() =~= text@.take(end as int - 1));
        }
        end = end - 1;
    }
    proof {
        if end > 0 {
            assert(text@.take(end as int).last() == wanted);
        }
    }
    end
}

/// The file name of a path.
pub fn path_file_name(path: &str) -> (name: Option<String>)
    ensures
        match name {
            Some(name) => file_name(path@) == Some(name@),
            None => file_name(path@) is None,
        },
{
    let mut rest = path.to_owned();
    loop
        invariant
            file_name(rest@) == file_name(path@),
        decreases rest@.len(),
    {
        let start: usize = behind_last(rest.as_str(), '/');
        let end: usize = rest.as_str().unicode_len();
        let name = rest.as_str().substring_char(start, end);
        proof {
            assert(name@ =~= rest@.skip(start as int));
            reveal_strlit(".");
            reveal_strlit("..");
            assert("."@ =~= seq!['.']);
            assert(".."@ =~= seq!['.', '.']);
        }
        if same_text(name, "..") {
            return None;
        }
        if !name.is_empty() && !same_text(name, ".") {
            return Some(name.to_owned());
        }
        if start == 0 {
            return None;
        }
        let shorter = rest.as_str().substring_char(0, start - 1).to_owned();
        proof {
            assert(shorter@ =~= rest@.take(start as int - 1));
        }
        rest = shorter;
    }
}

/// The extension of a path's file name.
pub fn path_extension(path: &str) -> (extension: Option<String>)
    ensures
        match extension {
            Some(extension) => file_extension(path@) == Some(extension@),
            None => file_extension(path@) is None,
        },
{
    match path_file_name(path) {
        None => None,
        Some(name) => {
            let behind: usize = behind_last(name.as_str(), '.');
            if behind > 1 {
                let end: usize = name.as_str().unicode_len();
                let extension = name.as_str().substring_char(behind, end);
                proof {
                    assert(extension@ =~= name@.skip(behind as int));
                }
                Some(extension.to_owned())
            } else {
                None
            }
        },
    }
}

/// The `Debug` notation of a text: quoted, with special characters escaped.
pub uninterp spec fn debug_notation(text: Seq<char>) -> Seq<char>;

/// `str`'s `Debug`, which writes the text in quotes and escapes what needs it.
#[verifier::external_body]
pub(crate) fn debug_text(text: &str) -> (notation: String)
    ensures
        notation@ == debug_notation(text@),
{
    format!("{text:?}")
}

/// The number that a text of decimal digits stands for.
pub open spec fn decimal_value(text: Seq<char>) -> int
    decreases text.len(),
{
    if text.len() == 0 {
        0
    } else {
        10 * decimal_value(text.drop_last()) + (text.last() as int - 48)
    }
}

/// The decimal notation of a number stands for it.
pub proof fn lemma_decimal_reads_back(n: nat)
    ensures
        decimal_value(decimal(n)) == n,
        decimal(n).len() >= 1,
        forall|i: int| 0 <= i < decimal(n).len() ==> '0' <= #[trigger] decimal(n)[i] <= '9',
        n > 0 ==> decimal(n)[0] != '0',
        n == 0 ==> decimal(n).len() == 1,
    decreases n,
{
    let text = decimal(n);
    assert(digit_char(n % 10) as int == 48 + n % 10);
    if n < 10 {
        assert(text.drop_last() =~= Seq::empty());
        assert(decimal_value(text.drop_last()) == 0);
        assert(text.last() == digit_char(n));
    } else {
        lemma_decimal_reads_back(n / 10);
        assert(text.drop_last() =~= decimal(n / 10));
        assert(text.last() == digit_char(n % 10));
        assert forall|i: int| 0 <= i < text.len() implies '0' <= #[trigger] text[i] <= '9' by {
            if i < text.len() - 1 {
                assert(text[i] == decimal(n / 10)[i]);
            }
        }
        assert(text[0] == decimal(n / 10)[0]);
    }
}

/// A number is written in the digits 0 to 9, reading them gives it back, and
/// none is in front that could be left out.
pub proof fn law_decimal_text_reads_back(n: u64, text: String)
    requires
        call_ensures(decimal_text, (n,), text),
    ensures
        decimal_value(text@) == n,
        text@.len() >= 1,
        forall|i: int| 0 <= i < text@.len() ==> '0' <= #[trigger] text@[i] <= '9',
        text@.len() > 1 ==> text@[0] != '0',
{
    lemma_decimal_reads_back(n as nat);
}

/// Two texts are the same exactly where they are of one length and hold the same
/// character at every place.
pub proof fn law_same_texts_hold_the_same_characters(a: &str, b: &str, same: bool)
    requires
        call_ensures(same_text, (a, b), same),
    ensures
        same <==> a@.len() == b@.len() && forall|i: int|
            0 <= i < a@.len() ==> a@[i] == #[trigger] b@[i],
{
    if a@.len() == b@.len() && forall|i: int| 0 <= i < a@.len() ==> a@[i] == #[trigger] b@[i] {
        assert(a@ =~= b@);
    }
}

proof fn lemma_separated_splits(
    front: Seq<Seq<char>>,
    back: Seq<Seq<char>>,
    separator: Seq<char>,
)
    requires
        front.len() > 0,
        back.len() > 0,
    ensures
        separated(front + back, separator) == separated(front, separator) + separator + separated(
            back,
            separator,
        ),
    decreases back.len(),
{
    let whole = front + back;
    assert(whole.last() == back.last());
    if back.len() == 1 {
        assert(whole.drop_last() =~= front);
    } else {
        let shorter = back.drop_last();
        assert(whole.drop_last() =~= front + shorter);
        lemma_separated_splits(front, shorter, separator);
        assert(separated(whole, separator) =~= separated(front, separator) + separator + separated(
            back,
            separator,
        ));
    }
}

/// Joining nothing gives nothing, and joining one item gives the item. Wherever a
/// list is cut in two, the joined whole is the two joined parts with the separator
/// between them.
pub proof fn law_joined_items_split_at_every_separator(
    front: Vec<String>,
    back: Vec<String>,
    whole: Vec<String>,
    separator: &str,
    joined_front: String,
    joined_back: String,
    joined: String,
)
    requires
        whole@ == front@ + back@,
        call_ensures(separated_text, (&front, separator), joined_front),
        call_ensures(separated_text, (&back, separator), joined_back),
        call_ensures(separated_text, (&whole, separator), joined),
    ensures
        whole@.len() == 0 ==> joined@.len() == 0,
        whole@.len() == 1 ==> joined@ == whole@[0]@,
        front@.len() > 0 && back@.len() > 0 ==> joined@ == joined_front@ + separator@ + joined_back@,
{
    assert(texts(whole@) =~= texts(front@) + texts(back@));
    if whole@.len() == 1 {
        assert(texts(whole@)[0] == whole@[0]@);
    }
    if front@.len() > 0 && back@.len() > 0 {
        lemma_separated_splits(texts(front@), texts(back@), separator@);
    }
}

/// A list holds a text exactly where one of its strings has the text's
/// characters.
pub proof fn law_contained_text_is_one_of_the_items(items: Vec<String>, text: &str, found: bool)
    requires
        call_ensures(contains_text, (&items, text), found),
    ensures
        found <==> exists|i: int| 0 <= i < items@.len() && (#[trigger] items@[i])@ == text@,
{
    if found {
        let i = choose|i: int| 0 <= i < texts(items@).len() && texts(items@)[i] == text@;
        assert(items@[i]@ == text@);
    }
    if exists|i: int| 0 <= i < items@.len() && (#[trigger] items@[i])@ == text@ {
        let i = choose|i: int| 0 <= i < items@.len() && (#[trigger] items@[i])@ == text@;
        assert(texts(items@)[i] == text@);
    }
}

/// A text is blank exactly where none of its characters is anything but one of the
/// 25 that Unicode calls white space, here by their code points.
pub proof fn law_blank_texts_hold_white_space_only(text: &str, is: bool)
    requires
        call_ensures(is_blank, (text,), is),
    ensures
        is <==> forall|i: int|
            0 <= i < text@.len() ==> {
                let point = #[trigger] text@[i] as int;
                ||| 9 <= point <= 13
                ||| point == 32 || point == 133 || point == 160 || point == 5760
                ||| 8192 <= point <= 8202
                ||| point == 8232 || point == 8233 || point == 8239 || point == 8287
                ||| point == 12288
            },
{
    if is {
        assert forall|i: int| 0 <= i < text@.len() implies is_white_space(#[trigger] text@[i]) by {}
    }
}

/// A text holds a character exactly where it stands at one of its places.
pub proof fn law_contained_character_has_a_place(text: &str, wanted: char, found: bool)
    requires
        call_ensures(contains_char, (text, wanted), found),
    ensures
        found <==> exists|i: int| 0 <= i < text@.len() && #[trigger] text@[i] == wanted,
{
}

/// An absolute name stands alone. Any other lies below its directory: the path
/// starts with the directory and ends with the name, with a separator right before
/// the name and nothing else between the two.
pub proof fn law_joined_path_lies_below_its_directory(dir: &str, name: &str, path: String)
    requires
        call_ensures(join_path, (dir, name), path),
    ensures
        name@.len() > 0 && name@[0] == '/' ==> path@ == name@,
        name@.len() == 0 || name@[0] != '/' ==> {
            let before = path@.take(path@.len() - name@.len());
            &&& path@.len() >= name@.len()
            &&& path@ == before + name@
            &&& dir@.len() == 0 ==> before.len() == 0
            &&& dir@.len() > 0 ==> before.last() == '/' && (before == dir@ || before == dir@
                + seq!['/'])
            &&& dir@.len() > 0 && dir@.last() == '/' ==> before == dir@
        },
{
    let before = path@.take(path@.len() - name@.len());
    if name@.len() == 0 || name@[0] != '/' {
        assert(path@ =~= before + name@);
        if dir@.len() == 0 || dir@.last() == '/' {
            assert(before =~= dir@);
        } else {
            assert(before =~= dir@ + seq!['/']);
        }
    }
}

proof fn lemma_last_position(text: Seq<char>, wanted: char)
    ensures
        -1 <= last_position(text, wanted) < text.len(),
        last_position(text, wanted) >= 0 ==> text[last_position(text, wanted)] == wanted,
        forall|i: int|
            last_position(text, wanted) < i < text.len() ==> #[trigger] text[i] != wanted,
    decreases text.len(),
{
    if text.len() > 0 && text.last() != wanted {
        let shorter = text.drop_last();
        lemma_last_position(shorter, wanted);
        assert forall|i: int| last_position(text, wanted) < i < text.len() implies #[trigger] text[i]
            != wanted by {
            if i < shorter.len() {
                assert(shorter[i] == text[i]);
            }
        }
    }
}

proof fn lemma_cut_at_last(before: Seq<char>, wanted: char, after: Seq<char>)
    requires
        !after.contains(wanted),
    ensures
        last_position(after, wanted) == -1,
        last_position(before.push(wanted) + after, wanted) == before.len(),
        (before.push(wanted) + after).skip(before.len() as int + 1) == after,
        (before.push(wanted) + after).take(before.len() as int) == before,
{
    let whole = before.push(wanted) + after;
    lemma_last_position(after, wanted);
    lemma_last_position(whole, wanted);
    let at = last_position(whole, wanted);
    assert(whole[before.len() as int] == wanted);
    if at > before.len() {
        assert(whole[at] == after[at - before.len() - 1]);
    }
    assert(whole.skip(before.len() as int + 1) =~= after);
    assert(whole.take(before.len() as int) =~= before);
}

/// A path that ends in a name has that name, whatever is in front of the last
/// separator, and one separator behind it changes nothing.
pub proof fn law_path_ends_in_its_file_name(
    path: &str,
    front: Seq<char>,
    name: Seq<char>,
    found: Option<String>,
)
    requires
        call_ensures(path_file_name, (path,), found),
        name.len() > 0,
        !name.contains('/'),
        name != seq!['.'],
        path@ == name || path@ == front.push('/') + name || path@ == name.push('/') || path@ == (
        front.push('/') + name).push('/'),
    ensures
        name != seq!['.', '.'] ==> (found matches Some(text) && text@ == name),
        name == seq!['.', '.'] && path@.last() != '/' ==> found is None,
{
    let none = Seq::<char>::empty();
    lemma_cut_at_last(front, '/', name);
    let bare = if path@ == name || path@ == name.push('/') {
        name
    } else {
        front.push('/') + name
    };
    assert(bare == name || bare == front.push('/') + name);
    assert(name.skip(0) =~= name);
    assert(file_name(bare) == if name == seq!['.', '.'] {
        None::<Seq<char>>
    } else {
        Some(name)
    });
    if path@.last() == '/' {
        assert(bare.last() != '/') by {
            assert(bare.last() == name[name.len() - 1]);
        }
        assert(path@ =~= bare.push('/') + none);
        lemma_cut_at_last(bare, '/', none);
        assert(none != seq!['.', '.']);
        assert(file_name(path@) == file_name(bare));
    } else {
        assert(path@ == bare) by {
            assert(name.push('/').last() == '/');
            assert((front.push('/') + name).push('/').last() == '/');
        }
    }
}

/// The extension of a file name is what follows its last dot: a name without a dot
/// has none, and neither has one whose only dot is its first character.
pub proof fn law_extension_follows_the_last_dot(
    path: &str,
    stem: Seq<char>,
    ending: Seq<char>,
    name: Option<String>,
    extension: Option<String>,
)
    requires
        call_ensures(path_file_name, (path,), name),
        call_ensures(path_extension, (path,), extension),
        !ending.contains('.'),
    ensures
        name is None ==> extension is None,
        name matches Some(name) ==> {
            &&& name@ == ending ==> extension is None
            &&& name@ == stem.push('.') + ending && stem.len() > 0 ==> (extension matches Some(text)
                && text@ == ending)
            &&& name@ == seq!['.'] + ending ==> extension is None
        },
{
    lemma_cut_at_last(stem, '.', ending);
    lemma_cut_at_last(Seq::empty(), '.', ending);
    assert(Seq::<char>::empty().push('.') =~= seq!['.']);
}

} // verus!
