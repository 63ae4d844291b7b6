use pico_args::Arguments;
use vstd::prelude::*;

verus! {

/// The argument parser of `pico_args`. Nothing is seen inside it: what it
/// holds goes by the name `held`.
#[verifier::external_type_specification]
#[verifier::external_body]
pub struct ExArguments(pico_args::Arguments);

/// The error of `pico_args`. It is carried, and never looked into.
#[verifier::external_type_specification]
#[verifier::external_body]
pub struct ExError(pico_args::Error);

/// The arguments that a parser of `pico_args` still holds, in their order. An
/// argument that is not UTF-8 stands as `None`.
pub uninterp spec fn held(args: Arguments) -> Seq<Option<Seq<char>>>;

/// The least index at which `item` stands in `list`, if it stands there at all.
pub open spec fn first_position<T>(list: Seq<T>, item: T) -> Option<int>
    decreases list.len(),
{
    if list.len() == 0 {
        None
    } else if list[0] == item {
        Some(0)
    } else {
        match first_position(list.drop_first(), item) {
            Some(i) => Some(i + 1),
            None => None,
        }
    }
}

/// What `first_position` finds is the least index of `item`, and it finds
/// nothing only where `item` does not stand in `list`.
pub proof fn lemma_first_position<T>(list: Seq<T>, item: T)
    ensures
        match first_position(list, item) {
            Some(i) => 0 <= i < list.len() && list[i] == item && forall|j: int|
                0 <= j < i ==> list[j] != item,
            None => !list.contains(item),
        },
    decreases list.len(),
{
    if list.len() > 0 && list[0] != item {
        let tail = list.drop_first();
        lemma_first_position(tail, item);
        match first_position(tail, item) {
            Some(i) => {
                assert forall|j: int| 0 <= j < i + 1 implies list[j] != item by {
                    if j > 0 {
                        assert(tail[j - 1] == list[j]);
                    }
                }
            },
            None => {
                assert forall|j: int| 0 <= j < list.len() implies list[j] != item by {
                    if j > 0 {
                        assert(tail[j - 1] == list[j]);
                    }
                }
            },
        }
    }
}

/// A key that `pico_args` takes as a long option: it begins with two dashes.
pub open spec fn is_long_key(key: Seq<char>) -> bool {
    key.len() >= 2 && key[0] == '-' && key[1] == '-'
}

/// Every token of `line` as an argument that is UTF-8.
pub open spec fn as_held(line: Seq<Seq<char>>) -> Seq<Option<Seq<char>>> {
    Seq::new(line.len(), |i: int| Some(line[i]))
}

/// A key stands in a line of UTF-8 tokens where it stands among them as held
/// arguments.
pub proof fn lemma_first_position_held(line: Seq<Seq<char>>, key: Seq<char>)
    ensures
        first_position(as_held(line), Some(key)) == first_position(line, key),
    decreases line.len(),
{
    if line.len() > 0 && line[0] != key {
        assert(as_held(line).drop_first() == as_held(line.drop_first()));
        lemma_first_position_held(line.drop_first(), key);
    }
}

/// Taking a token out of a line takes the argument at its place out of the
/// held arguments.
pub proof fn lemma_remove_held(line: Seq<Seq<char>>, i: int)
    requires
        0 <= i < line.len(),
    ensures
        as_held(line).remove(i) == as_held(line.remove(i)),
{
}

/// Two lines that are held alike are the same line.
pub proof fn lemma_held_alike(a: Seq<Seq<char>>, b: Seq<Seq<char>>)
    requires
        as_held(a) == as_held(b),
    ensures
        a == b,
{
    assert(a.len() == as_held(a).len());
    assert(b.len() == as_held(b).len());
    assert forall|i: int| 0 <= i < a.len() implies a[i] == b[i] by {
        assert(as_held(a)[i] == Some(a[i]));
        assert(as_held(b)[i] == Some(b[i]));
    }
    assert(a =~= b);
}

/// `Arguments::from_vec`: the parser holds exactly the given strings, in their
/// order.
#[verifier::external_body]
pub(crate) fn parser_of(raw: Vec<String>) -> (args: Arguments)
    ensures
        held(args) == as_held(raw.deep_view()),
{
    Arguments::from_vec(raw.into_iter().map(Into::into).collect())
}

/// `Arguments::contains` with one long key: it tells whether an argument equal
/// to the key is held, and takes the first such argument out.
#[verifier::external_body]
pub(crate) fn take_flag(args: &mut Arguments, key: &'static str) -> (found: bool)
    requires
        is_long_key(key@),
    ensures
        match first_position(held(*old(args)), Some(key@)) {
            Some(i) => found && held(*final(args)) == held(*old(args)).remove(i),
            None => !found && held(*final(args)) == held(*old(args)),
        },
{
    args.contains(key)
}

/// `Arguments::opt_value_from_str` with one long key and a `String` value. Where
/// no argument equals the key, nothing is taken. Where the first such argument
/// is followed by a UTF-8 argument, both are taken out and the follower is the
/// value. Otherwise (nothing follows, or what follows is not UTF-8) the call
/// fails and takes nothing.
#[verifier::external_body]
pub(crate) fn take_value(args: &mut Arguments, key: &'static str) -> (res: Result<
    Option<String>,
    pico_args::Error,
>)
    requires
        is_long_key(key@),
    ensures
        match first_position(held(*old(args)), Some(key@)) {
            None => res == Ok::<Option<String>, pico_args::Error>(None) && held(*final(args))
                == held(*old(args)),
            Some(i) => if i + 1 < held(*old(args)).len() && held(*old(args))[i + 1] is Some {
                &&& res matches Ok(Some(value))
                &&& Some(value@) == held(*old(args))[i + 1]
                &&& held(*final(args)) == held(*old(args)).remove(i).remove(i)
            } else {
                res is Err && held(*final(args)) == held(*old(args))
            },
        },
{
    args.opt_value_from_str(key)
}

/// `Arguments::finish`: the arguments still held, in their order, each as a
/// `String`. An argument that is not UTF-8 has no `String`, so none may be held.
#[verifier::external_body]
pub(crate) fn rest_of(args: Arguments) -> (rest: Vec<String>)
    requires
        forall|i: int| 0 <= i < held(args).len() ==> held(args)[i] is Some,
    ensures
        as_held(rest.deep_view()) == held(args),
{
    args.finish().into_iter().map(|x| x.into_string().unwrap()).collect()
}

} // verus!
