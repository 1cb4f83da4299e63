//! What a picture of the statistics needs besides the drawing itself: the
//! label of each axis position, and the name of the file for a game.

use vstd::prelude::*;
use vstd::string::StringExecFns;

verus! {

/// A position on a segmented axis: exactly at a mark, in the middle of the
/// segment that starts at a mark, or at the end of the axis.
#[derive(Debug, Clone, Copy, PartialEq, Eq, Structural)]
pub enum Segment {
    Exact(i32),
    CenterOf(i32),
    Last,
}

impl Segment {
    /// The mark that the position belongs to; the greatest `i32` for the end
    /// of the axis.
    pub open spec fn mark(self) -> int {
        match self {
            Segment::Exact(a) => a as int,
            Segment::CenterOf(a) => a as int,
            Segment::Last => i32::MAX as int,
        }
    }
}

/// The index of the actor that an axis position stands for.
pub fn index_from_segment(segment: &Segment) -> (index: usize)
    requires
        segment.mark() >= 0,
    ensures
        index == segment.mark(),
{
    let mark: i32 = match *segment {
        Segment::Exact(a) => a,
        Segment::CenterOf(a) => a,
        Segment::Last => i32::MAX,
    };
    mark as usize
}

/// The label at an axis position: the name of the actor there, and nothing
/// at the position just behind the last actor.
pub fn axis_label(names: &Vec<String>, segment: &Segment) -> (label: String)
    requires
        0 <= segment.mark() <= names@.len(),
    ensures
        label@ == if segment.mark() == names@.len() {
            Seq::<char>::empty()
        } else {
            names@[segment.mark()]@
        },
{
    let index = index_from_segment(segment);
    if index != names.len() {
        names[index].clone()
    } else {
        String::new()
    }
}

/// What `str::to_lowercase` returns for a string with these characters.
pub uninterp spec fn lowercase_of(s: Seq<char>) -> Seq<char>;

/// Calls `str::to_lowercase`.
///
/// Trusted: the result's characters are `lowercase_of` the argument's; the
/// conversion depends on the characters alone.
#[verifier::external_body]
fn to_lowercase(s: &str) -> (lowered: String)
    ensures
        lowered@ == lowercase_of(s@),
{
    s.to_lowercase()
}

/// What `char::is_whitespace` returns for the character.
pub uninterp spec fn is_whitespace(c: char) -> bool;

/// Calls `char::is_whitespace`.
///
/// Trusted: the result is `is_whitespace` of the character; it depends on
/// the character alone.
#[verifier::external_body]
fn char_is_whitespace(c: char) -> (white: bool)
    ensures
        white == is_whitespace(c),
{
    c.is_whitespace()
}

/// Calls `String::push`.
///
/// Trusted: the character is appended, and nothing else changes.
#[verifier::external_body]
fn push_char(s: &mut String, c: char)
    ensures
        final(s)@ == old(s)@.push(c),
{
    s.push(c)
}

/// The characters of `s` with an underscore in place of each whitespace
/// character.
pub open spec fn underscored(s: Seq<char>) -> Seq<char> {
    Seq::new(s.len(), |i: int| if is_whitespace(s[i]) { '_' } else { s[i] })
}

/// The file for the picture of a game whose lower-case title is `lowered`.
pub open spec fn file_name_of(lowered: Seq<char>) -> Seq<char> {
    "stats/"@ + underscored(lowered) + ".png"@
}

/// The name of the file for the picture of a game, from the game's title in
/// lower case: the title with an underscore for each whitespace character,
/// in the directory `stats`, with the ending `.png`.
pub fn file_name_from_lowercase(lowered: &str) -> (path: String)
    ensures
        path@ == file_name_of(lowered@),
{
    let mut path = String::new();
    path.append("stats/");
    let count = lowered.unicode_len();
    let mut i: usize = 0;
    while i < count
        invariant
            i <= count,
            count == lowered@.len(),
            path@ == "stats/"@ + underscored(lowered@).take(i as int),
        decreases count - i,
    {
        let c = lowered.get_char(i);
        let shown = if char_is_whitespace(c) { '_' } else { c };
        push_char(&mut path, shown);
        assert(underscored(lowered@).take(i + 1) =~= underscored(lowered@).take(i as int).push(
            shown,
        ));
        assert(("stats/"@ + underscored(lowered@).take(i as int)).push(shown) =~= "stats/"@
            + underscored(lowered@).take(i as int).push(shown));
        i += 1;
    }
    assert(underscored(lowered@).take(count as int) =~= underscored(lowered@));
    path.append(".png");
    path
}

/// The name of the file for the picture of the game with the given title.
pub fn file_name(title: &str) -> (path: String)
    ensures
        path@ == file_name_of(lowercase_of(title@)),
{
    let lowered = to_lowercase(title);
    file_name_from_lowercase(lowered.as_str())
}

} // verus!
