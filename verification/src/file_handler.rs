//! Finding the cloud files of a recording and putting them in the order of its frames.
use crate::rows::{rows_at, select};
use crate::sort::{comes_before, is_stable_order, law_order_is_complete, stable_order};
use regex::Regex;
use vstd::arithmetic::power::{lemma_pow0, lemma_pow1, lemma_pow_adds, pow};
use vstd::prelude::*;

verus! {

/// The pattern of the names of cloud files: its group is the number of the frame.
pub open spec fn frame_pattern() -> Seq<char> {
    r"voxelized-025_frame_(\d+)\.pcd$"@
}

/// `c` is one of the ten digits.
pub open spec fn is_digit(c: char) -> bool {
    '0' <= c <= '9'
}

/// `text` is a number written in decimal digits.
pub open spec fn is_decimal(text: Seq<char>) -> bool {
    text.len() > 0 && forall|i: int| 0 <= i < text.len() ==> is_digit(#[trigger] text[i])
}

/// The number that decimal digits stand for.
pub open spec fn decimal_value(digits: Seq<char>) -> nat
    decreases digits.len(),
{
    if digits.len() == 0 {
        0
    } else {
        10 * decimal_value(digits.drop_last()) + (digits.last() as nat - '0' as nat) as nat
    }
}

/// `name` ends in the name of a cloud file, with `digits` where the frame's number
/// stands; `head` is what comes before.
pub open spec fn reads_as(name: Seq<char>, head: Seq<char>, digits: Seq<char>) -> bool {
    name == head + "voxelized-025_frame_"@ + digits + ".pcd"@
}

/// What the group of the pattern of cloud files captures in the text by the rules of the
/// `regex` crate; `None` where the pattern does not match.
pub uninterp spec fn frame_capture(text: Seq<char>) -> Option<Seq<char>>;

/// The characters of an optional string.
pub open spec fn optional_view(text: Option<String>) -> Option<Seq<char>> {
    match text {
        Some(text) => Some(text@),
        None => None,
    }
}

/// Calls `Regex::new` and `Regex::captures` of the `regex` crate with the pattern of
/// cloud files and takes the first group. The result is a function of the text; this
/// much is said of it: the pattern is a regular expression, which an outer `None` would
/// deny; a text that ends in the literal parts with decimal digits between them is
/// matched, and the group is those digits; and a match is always such an ending, with
/// something between the literal parts. Nothing is said of which characters besides the
/// ten digits the group can hold.
#[verifier::external_body]
fn first_group(pattern: &str, text: &str) -> (r: Option<Option<String>>)
    requires
        pattern@ == frame_pattern(),
    ensures
        r is Some,
        optional_view(r->0) == frame_capture(text@),
        forall|head: Seq<char>, digits: Seq<char>| #[trigger]
            reads_as(text@, head, digits) && is_decimal(digits) ==> optional_view(r->0) == Some(
                digits,
            ),
        r->0 matches Some(group) ==> exists|head: Seq<char>| #[trigger]
            reads_as(text@, head, group@),
{
    let regex = Regex::new(pattern).ok()?;
    let captures = regex.captures(text);
    Some(captures.and_then(|c| c.get(1).map(|group| group.as_str().to_owned())))
}

/// Leading digits make no number larger than the whole.
proof fn lemma_decimal_prefix(digits: Seq<char>, n: int)
    requires
        is_decimal(digits),
        0 <= n <= digits.len(),
    ensures
        decimal_value(digits.take(n)) <= decimal_value(digits),
    decreases digits.len() - n,
{
    if n < digits.len() {
        lemma_decimal_prefix(digits, n + 1);
        assert(digits.take(n + 1).drop_last() =~= digits.take(n));
        assert(is_digit(digits[n]));
    } else {
        assert(digits.take(n) =~= digits);
    }
}

/// The digits of two numbers in a row make the first times a power of ten, and the second;
/// one digit makes its distance from the digit zero.
pub proof fn law_digits_count_by_place(head: Seq<char>, tail: Seq<char>, digit: char)
    requires
        is_digit(digit),
    ensures
        decimal_value(head + tail) == decimal_value(head) * pow(10, tail.len()) + decimal_value(
            tail,
        ),
        decimal_value(seq![digit]) == digit as nat - '0' as nat,
    decreases tail.len(),
{
    assert(seq![digit].drop_last() =~= Seq::<char>::empty());
    assert(decimal_value(Seq::<char>::empty()) == 0);
    assert(seq![digit].last() == digit);
    if tail.len() == 0 {
        lemma_pow0(10);
        assert(head + tail =~= head);
    } else {
        let rest = tail.drop_last();
        law_digits_count_by_place(head, rest, digit);
        assert((head + tail).drop_last() =~= head + rest);
        assert((head + tail).last() == tail.last());
        lemma_pow1(10);
        lemma_pow_adds(10, 1, rest.len());
        let (a, b) = (decimal_value(head) as int, pow(10, rest.len()));
        assert(a * (10 * b) == 10 * (a * b)) by (nonlinear_arith);
    }
}

/// Reads a decimal number; `None` where the text is not one or the number does not fit.
pub fn parse_decimal(text: &str) -> (r: Option<u32>)
    ensures
        r is Some <==> is_decimal(text@) && decimal_value(text@) <= u32::MAX,
        r matches Some(n) ==> n == decimal_value(text@),
{
    let len: usize = text.unicode_len();
    if len == 0 {
        return None;
    }
    let mut value: u32 = 0;
    let mut i: usize = 0;
    while i < len
        invariant
            i <= len,
            len == text@.len(),
            forall|j: int| 0 <= j < i ==> is_digit(#[trigger] text@[j]),
            value == decimal_value(text@.take(i as int)),
        decreases len - i,
    {
        let c: char = text.get_char(i);
        if c < '0' || '9' < c {
            assert(!is_digit(text@[i as int]));
            return None;
        }
        let digit: u32 = c as u32 - '0' as u32;
        let ghost next = text@.take(i + 1);
        proof {
            assert(next.drop_last() =~= text@.take(i as int));
            if is_decimal(text@) {
                lemma_decimal_prefix(text@, i + 1);
            }
        }
        if value > (u32::MAX - digit) / 10 {
            return None;
        }
        value = 10 * value + digit;
        i += 1;
    }
    assert(text@.take(i as int) =~= text@);
    Some(value)
}

/// Whether `name` is that of a cloud file of the frame with this number.
pub open spec fn names_frame(name: Seq<char>, number: u32) -> bool {
    exists|head: Seq<char>, digits: Seq<char>| #[trigger]
        reads_as(name, head, digits) && is_decimal(digits) && decimal_value(digits) == number
}

/// A name reads in one way only.
proof fn lemma_reads_one_way(
    name: Seq<char>,
    head: Seq<char>,
    digits: Seq<char>,
    other_head: Seq<char>,
    other_digits: Seq<char>,
)
    requires
        reads_as(name, head, digits),
        is_decimal(digits),
        reads_as(name, other_head, other_digits),
        is_decimal(other_digits),
        digits.len() <= other_digits.len(),
    ensures
        digits == other_digits,
{
    reveal_strlit("voxelized-025_frame_");
    reveal_strlit(".pcd");
    let end = name.len() - ".pcd"@.len();
    let before = end - digits.len() - 1;
    assert(name[before] == '_');
    if digits.len() < other_digits.len() {
        let place = before - (end - other_digits.len());
        assert(other_digits[place] == name[before]);
        assert(is_digit(other_digits[place]));
    }
    assert(name.subrange(end - digits.len(), end) =~= digits);
    assert(name.subrange(end - digits.len(), end) =~= other_digits);
}

/// No name is that of two frames.
pub proof fn law_name_has_one_frame(name: Seq<char>, a: u32, b: u32)
    requires
        names_frame(name, a),
        names_frame(name, b),
    ensures
        a == b,
{
    let (head, digits) = choose|head: Seq<char>, digits: Seq<char>| #[trigger]
        reads_as(name, head, digits) && is_decimal(digits) && decimal_value(digits) == a;
    let (other_head, other_digits) = choose|head: Seq<char>, digits: Seq<char>| #[trigger]
        reads_as(name, head, digits) && is_decimal(digits) && decimal_value(digits) == b;
    if digits.len() <= other_digits.len() {
        lemma_reads_one_way(name, head, digits, other_head, other_digits);
    } else {
        lemma_reads_one_way(name, other_head, other_digits, head, digits);
    }
}

/// The number of the frame that a captured group stands for: that of its digits, where
/// there is a group and its number fits.
pub open spec fn number_of_group(group: Option<Seq<char>>) -> Option<u32> {
    match group {
        Some(digits) => if is_decimal(digits) && decimal_value(digits) <= u32::MAX {
            Some(decimal_value(digits) as u32)
        } else {
            None
        },
        None => None,
    }
}

/// The number of the frame that a captured group stands for.
pub fn group_number(group: &Option<String>) -> (number: Option<u32>)
    ensures
        number == number_of_group(optional_view(*group)),
{
    match group {
        Some(digits) => parse_decimal(digits.as_str()),
        None => None,
    }
}

/// The number of the frame whose cloud file has this name, or `None` where it is not
/// the name of a cloud file or the number does not fit.
pub fn frame_number(name: &str) -> (number: Option<u32>)
    ensures
        number == number_of_group(frame_capture(name@)),
        number matches Some(n) ==> names_frame(name@, n),
        number is None ==> forall|n: u32| !#[trigger] names_frame(name@, n),
{
    let captured: Option<Option<String>> = first_group(
        r"voxelized-025_frame_(\d+)\.pcd$",
        name,
    );
    let group: Option<String> = captured.unwrap();
    let number: Option<u32> = group_number(&group);
    proof {
        if number is None {
            assert forall|n: u32| !#[trigger] names_frame(name@, n) by {
                if names_frame(name@, n) {
                    let (head, digits) = choose|head: Seq<char>, digits: Seq<char>| #[trigger]
                        reads_as(name@, head, digits) && is_decimal(digits) && decimal_value(
                            digits,
                        ) == n;
                    assert(optional_view(group) == Some(digits));
                }
            }
        }
    }
    number
}

/// What is known of a directory entry.
pub struct FileEntry {
    /// Whether it is a file.
    pub is_file: bool,
    /// Its name, where that is text.
    pub name: Option<String>,
}

/// Whether the entry is the cloud file of the frame with this number.
pub open spec fn is_frame_file(entry: FileEntry, number: u32) -> bool {
    entry.is_file && (entry.name matches Some(name) && names_frame(name@, number))
}

/// `order` lists the positions of the cloud files among the entries: each of them
/// once, by rising number of the frame, and those of one frame in the entries' order.
pub open spec fn lists_frames(entries: Seq<FileEntry>, order: Seq<usize>) -> bool {
    &&& order.no_duplicates()
    &&& forall|i: usize| #[trigger]
        order.contains(i) <==> i < entries.len() && exists|n: u32|
            is_frame_file(entries[i as int], n)
    &&& forall|p: int, q: int, m: u32, n: u32|
        0 <= p < q < order.len() && #[trigger] is_frame_file(entries[order[p] as int], m)
            && #[trigger] is_frame_file(entries[order[q] as int], n) ==> m < n || (m == n
            && order[p] < order[q])
}

/// Picks the cloud files out of a directory's entries, in the order of their frames:
/// their positions among the entries.
pub fn load_pcd_files(entries: &Vec<FileEntry>) -> (order: Vec<usize>)
    ensures
        lists_frames(entries@, order@),
{
    let mut found: Vec<usize> = Vec::new();
    let mut keys: Vec<i64> = Vec::new();
    let mut i: usize = 0;
    while i < entries.len()
        invariant
            i <= entries@.len(),
            found@.len() == keys@.len() <= i,
            forall|k: int| 0 <= k < found@.len() ==> (#[trigger] found@[k]) < i,
            forall|k: int, l: int|
                #![trigger found@[k], found@[l]]
                0 <= k < l < found@.len() ==> found@[k] < found@[l],
            forall|k: int|
                0 <= k < found@.len() ==> 0 <= (#[trigger] keys@[k]) <= u32::MAX && is_frame_file(
                    entries@[found@[k] as int],
                    keys@[k] as u32,
                ),
            forall|j: usize, n: u32|
                j < i && #[trigger] is_frame_file(entries@[j as int], n) ==> found@.contains(j),
        decreases entries@.len() - i,
    {
        let entry: &FileEntry = &entries[i];
        let number: Option<u32> = if entry.is_file {
            match &entry.name {
                Some(name) => frame_number(name.as_str()),
                None => None,
            }
        } else {
            None
        };
        let ghost before = found@;
        match number {
            Some(number) => {
                found.push(i);
                keys.push(number as i64);
                assert(found@.last() == i);
                assert(is_frame_file(entries@[i as int], number));
            },
            None => {},
        }
        proof {
            assert forall|j: usize, n: u32|
                j < i + 1 && #[trigger] is_frame_file(
                    entries@[j as int],
                    n,
                ) implies found@.contains(j) by {
                if j < i {
                    assert(before.contains(j));
                    let k = choose|k: int| 0 <= k < before.len() && before[k] == j;
                    assert(found@[k] == j);
                }
            }
        }
        i += 1;
    }
    let sorted: Vec<usize> = stable_order(&keys);
    let order: Vec<usize> = select(&found, &sorted);
    proof {
        lemma_frames_in_order(entries@, found@, keys@, sorted@);
    }
    order
}

/// Found positions, taken in the order of their numbers, list the cloud files.
proof fn lemma_frames_in_order(
    entries: Seq<FileEntry>,
    found: Seq<usize>,
    keys: Seq<i64>,
    sorted: Seq<usize>,
)
    requires
        found.len() == keys.len() <= usize::MAX,
        is_stable_order(keys, sorted),
        forall|k: int| 0 <= k < found.len() ==> (#[trigger] found[k]) < entries.len(),
        forall|k: int, l: int|
            #![trigger found[k], found[l]]
            0 <= k < l < found.len() ==> found[k] < found[l],
        forall|k: int|
            0 <= k < found.len() ==> 0 <= (#[trigger] keys[k]) <= u32::MAX && is_frame_file(
                entries[found[k] as int],
                keys[k] as u32,
            ),
        forall|j: usize, n: u32|
            j < entries.len() && #[trigger] is_frame_file(entries[j as int], n)
                ==> found.contains(j),
    ensures
        lists_frames(entries, rows_at(found, sorted)),
{
    let order = rows_at(found, sorted);
    assert forall|p: int, q: int| 0 <= p < q < order.len() implies order[p] != order[q] by {
        assert(comes_before(keys, sorted[p], sorted[q]));
        let (a, b) = (sorted[p] as int, sorted[q] as int);
        assert(found[a] != found[b]);
    }
    assert forall|i: usize| #[trigger]
        order.contains(i) <==> i < entries.len() && exists|n: u32|
            is_frame_file(entries[i as int], n) by {
        if order.contains(i) {
            let p = choose|p: int| 0 <= p < order.len() && order[p] == i;
            let k = sorted[p] as int;
            assert(0 <= keys[k]);
            assert(found[k] == i);
        }
        if i < entries.len() && exists|n: u32| is_frame_file(entries[i as int], n) {
            assert(found.contains(i));
            let k = choose|k: int| 0 <= k < found.len() && found[k] == i;
            law_order_is_complete(keys, sorted, k as usize);
            let p = choose|p: int| 0 <= p < sorted.len() && sorted[p] == k as usize;
            assert(order[p] == i);
        }
    }
    assert forall|p: int, q: int, m: u32, n: u32|
        0 <= p < q < order.len() && #[trigger] is_frame_file(entries[order[p] as int], m)
            && #[trigger] is_frame_file(entries[order[q] as int], n) implies m < n || (m == n
        && order[p] < order[q]) by {
        let (a, b) = (sorted[p] as int, sorted[q] as int);
        assert(comes_before(keys, sorted[p], sorted[q]));
        assert(0 <= keys[a] && 0 <= keys[b]);
        law_name_has_one_frame(entries[found[a] as int].name->0@, m, keys[a] as u32);
        law_name_has_one_frame(entries[found[b] as int].name->0@, n, keys[b] as u32);
        assert(found[a] != found[b]);
    }
}

} // verus!
