//! Small text tools shared by the messages of the library.

use vstd::prelude::*;
use vstd::string::*;

verus! {

/// The text of `s` as the standard library's `Debug` prints it: in double
/// quotes, with the characters escaped that need it.
pub uninterp spec fn debug_repr(s: Seq<char>) -> Seq<char>;

/// Wraps the standard library's `Debug` formatting of `str`, whose result
/// is a function of the text alone.
#[verifier::external_body]
pub(crate) fn debug_text(s: &str) -> (text: String)
    ensures
        text@ == debug_repr(s@),
{
    format!("{:?}", s)
}

/// The parts with `separator` between each two neighbours.
pub open spec fn joined(parts: Seq<Seq<char>>, separator: Seq<char>) -> Seq<char>
    decreases parts.len(),
{
    if parts.len() == 0 {
        Seq::empty()
    } else if parts.len() == 1 {
        parts[0]
    } else {
        joined(parts.drop_last(), separator) + separator + parts.last()
    }
}

/// The texts of a slice of string slices.
pub open spec fn slices_text(parts: Seq<&str>) -> Seq<Seq<char>> {
    Seq::new(parts.len(), |i: int| parts[i]@)
}

/// The texts of a slice of strings.
pub open spec fn strings_text(parts: Seq<String>) -> Seq<Seq<char>> {
    Seq::new(parts.len(), |i: int| parts[i]@)
}

/// Joins string slices with `separator` between each two neighbours.
pub fn join_slices(parts: &[&str], separator: &str) -> (text: String)
    ensures
        text@ == joined(slices_text(parts@), separator@),
{
    let ghost all = slices_text(parts@);
    let mut out = String::new();
    let mut i: usize = 0;
    assert(all.take(0) =~= Seq::<Seq<char>>::empty());
    while i < parts.len()
        invariant
            i <= parts.len(),
            all == slices_text(parts@),
            out@ == joined(all.take(i as int), separator@),
        decreases parts.len() - i,
    {
        if i > 0 {
            out.append(separator);
        }
        out.append(parts[i]);
        proof {
            let seen = all.take(i + 1);
            assert(seen.drop_last() =~= all.take(i as int));
            assert(seen.last() == parts@[i as int]@);
            if i == 0 {
                assert(out@ =~= seen[0]);
            }
        }
        i += 1;
    }
    assert(all.take(parts.len() as int) =~= all);
    out
}

/// Joins strings with `separator` between each two neighbours.
pub fn join_strings(parts: &Vec<String>, separator: &str) -> (text: String)
    ensures
        text@ == joined(strings_text(parts@), separator@),
{
    let ghost all = strings_text(parts@);
    let mut out = String::new();
    let mut i: usize = 0;
    assert(all.take(0) =~= Seq::<Seq<char>>::empty());
    while i < parts.len()
        invariant
            i <= parts.len(),
            all == strings_text(parts@),
            out@ == joined(all.take(i as int), separator@),
        decreases parts.len() - i,
    {
        if i > 0 {
            out.append(separator);
        }
        out.append(parts[i].as_str());
        proof {
            let seen = all.take(i + 1);
            assert(seen.drop_last() =~= all.take(i as int));
            assert(seen.last() == parts@[i as int]@);
            if i == 0 {
                assert(out@ =~= seen[0]);
            }
        }
        i += 1;
    }
    assert(all.take(parts.len() as int) =~= all);
    out
}

} // verus!
