//! The source that the device compiles its kernels from.

use crate::text;
use vstd::prelude::*;

verus! {

/// A family of kernels without the directive that opens it.
pub open spec fn family_body(family: Seq<char>, directive: Seq<char>) -> Seq<char> {
    if text::starts_with(family, directive) {
        family.skip(directive.len() as int)
    } else {
        family
    }
}

/// The families one behind the other.
pub open spec fn family_bodies(families: Seq<Seq<char>>, directive: Seq<char>) -> Seq<char>
    decreases families.len(),
{
    if families.len() == 0 {
        Seq::empty()
    } else {
        family_bodies(families.drop_last(), directive) + family_body(families.last(), directive)
    }
}

/// One source of all the kernels: the prelude, and then each family without the
/// directive that would read the prelude again.
pub fn shader_source(prelude: &str, directive: &str, families: &Vec<String>) -> (source: String)
    ensures
        source@ == prelude@ + family_bodies(text::string_views(families@), directive@),
{
    let ghost all = text::string_views(families@);
    let mut source = prelude.to_owned();
    let mut i: usize = 0;
    assert(all.take(0) =~= Seq::empty());
    assert(source@ =~= prelude@ + family_bodies(all.take(0), directive@));
    while i < families.len()
        invariant
            i <= families@.len(),
            all == text::string_views(families@),
            source@ == prelude@ + family_bodies(all.take(i as int), directive@),
        decreases families.len() - i,
    {
        let ghost shown = all.take(i + 1);
        let ghost before = source@;
        assert(shown.drop_last() =~= all.take(i as int));
        assert(shown.last() == families@[i as int]@);
        match text::strip_prefix(families[i].as_str(), directive) {
            Some(body) => source.append(body),
            None => source.append(families[i].as_str()),
        }
        assert(source@ =~= prelude@ + family_bodies(shown, directive@));
        i += 1;
    }
    assert(all.take(i as int) =~= all);
    source
}

/// A source holds its families in order, each whole but for the directive that opens
/// it: the families of two lists stand one behind the other, and one that is opened by
/// the directive is what follows it.
pub proof fn families_stand_in_order(
    left: Seq<Seq<char>>,
    right: Seq<Seq<char>>,
    directive: Seq<char>,
    body: Seq<char>,
)
    ensures
        family_bodies(left + right, directive) == family_bodies(left, directive) + family_bodies(
            right,
            directive,
        ),
        family_bodies(seq![directive + body], directive) == body,
        !text::starts_with(body, directive) ==> family_bodies(seq![body], directive) == body,
    decreases right.len(),
{
    reveal_with_fuel(family_bodies, 2);
    let opened = seq![directive + body];
    assert(opened.drop_last() =~= Seq::empty());
    assert((directive + body).take(directive.len() as int) =~= directive);
    assert((directive + body).skip(directive.len() as int) =~= body);
    assert(family_bodies(opened, directive) =~= body);
    let plain = seq![body];
    assert(plain.drop_last() =~= Seq::empty());
    assert(!text::starts_with(body, directive) ==> family_bodies(plain, directive) =~= body);
    if right.len() == 0 {
        assert(left + right =~= left);
        assert(family_bodies(left, directive) + family_bodies(right, directive) =~= family_bodies(
            left,
            directive,
        ));
    } else {
        families_stand_in_order(left, right.drop_last(), directive, body);
        assert((left + right).drop_last() =~= left + right.drop_last());
        assert((left + right).last() == right.last());
        assert(family_bodies(left + right, directive) =~= family_bodies(left, directive)
            + family_bodies(right, directive));
    }
}

} // verus!
