use crate::argv::{first_position, lemma_first_position};
use crate::cli::{
    after_features, after_flags, after_host, first_dashed, free_tokens, lacks_value,
    lemma_first_dashed, lemma_keys, resolve, unfinished_option, value_of, without_flag,
    without_option, ArgsView, ConfigFault, ValueOption, BUILD_ONLY, EXAMPLE, FEATURES, HOST, PORT,
    RELEASE,
};
use crate::text::is_dashed;
use vstd::prelude::*;

verus! {

/// The three flags.
pub enum Flag {
    Release,
    Example,
    BuildOnly,
}

impl Flag {
    /// The key under which the flag stands on the command line.
    pub open spec fn key(self) -> Seq<char> {
        match self {
            Flag::Release => RELEASE@,
            Flag::Example => EXAMPLE@,
            Flag::BuildOnly => BUILD_ONLY@,
        }
    }
}

/// One part of a command line, as its writer means it: a flag, an option with
/// its value, or a token that stands for itself.
pub enum Part {
    Flag(Flag),
    Valued(ValueOption, Seq<char>),
    Free(Seq<char>),
}

/// Whether `token` is the key of a flag.
pub open spec fn is_flag_key(token: Seq<char>) -> bool {
    token == RELEASE@ || token == EXAMPLE@ || token == BUILD_ONLY@
}

/// Whether `token` is the key of an option that takes a value.
pub open spec fn is_option_key(token: Seq<char>) -> bool {
    token == FEATURES@ || token == HOST@ || token == PORT@
}

/// Whether `token` is one of the six keys.
pub open spec fn is_key(token: Seq<char>) -> bool {
    is_flag_key(token) || is_option_key(token)
}

impl Part {
    /// The key of a flag or an option.
    pub open spec fn key(self) -> Option<Seq<char>> {
        match self {
            Part::Flag(flag) => Some(flag.key()),
            Part::Valued(option, _) => Some(option.key()),
            Part::Free(_) => None,
        }
    }

    /// The tokens that the part is written as.
    pub open spec fn tokens(self) -> Seq<Seq<char>> {
        match self {
            Part::Flag(flag) => seq![flag.key()],
            Part::Valued(option, value) => seq![option.key(), value],
            Part::Free(token) => seq![token],
        }
    }

    /// A value or a free token that is not itself one of the six keys.
    pub open spec fn is_plain(self) -> bool {
        match self {
            Part::Flag(_) => true,
            Part::Valued(_, value) => !is_key(value),
            Part::Free(token) => !is_key(token),
        }
    }
}

/// The command line that the parts are written as.
pub open spec fn line_of(parts: Seq<Part>) -> Seq<Seq<char>>
    decreases parts.len(),
{
    if parts.len() == 0 {
        Seq::empty()
    } else {
        parts[0].tokens() + line_of(parts.drop_first())
    }
}

/// No value and no free token is one of the six keys.
pub open spec fn all_plain(parts: Seq<Part>) -> bool {
    forall|i: int| 0 <= i < parts.len() ==> (#[trigger] parts[i]).is_plain()
}

/// How many of the parts have the key `key`.
pub open spec fn mentions(parts: Seq<Part>, key: Seq<char>) -> nat
    decreases parts.len(),
{
    if parts.len() == 0 {
        0
    } else if parts[0].key() == Some(key) {
        1 + mentions(parts.drop_first(), key)
    } else {
        mentions(parts.drop_first(), key)
    }
}

/// No key stands twice among the parts.
pub open spec fn keys_once(parts: Seq<Part>) -> bool {
    forall|key: Seq<char>| is_key(key) ==> #[trigger] mentions(parts, key) <= 1
}

/// The value of the first part that is the option `key`.
pub open spec fn value_in(parts: Seq<Part>, key: Seq<char>) -> Option<Seq<char>>
    decreases parts.len(),
{
    if parts.len() == 0 {
        None
    } else if parts[0].key() == Some(key) {
        match parts[0] {
            Part::Valued(_, value) => Some(value),
            _ => None,
        }
    } else {
        value_in(parts.drop_first(), key)
    }
}

/// The free tokens among the parts, in their order.
pub open spec fn frees(parts: Seq<Part>) -> Seq<Seq<char>>
    decreases parts.len(),
{
    if parts.len() == 0 {
        Seq::empty()
    } else {
        match parts[0] {
            Part::Free(token) => seq![token] + frees(parts.drop_first()),
            _ => frees(parts.drop_first()),
        }
    }
}

/// The parts without the first one that has the key `key`.
pub open spec fn without_part(parts: Seq<Part>, key: Seq<char>) -> Seq<Part>
    decreases parts.len(),
{
    if parts.len() == 0 {
        parts
    } else if parts[0].key() == Some(key) {
        parts.drop_first()
    } else {
        seq![parts[0]] + without_part(parts.drop_first(), key)
    }
}

/// What the writer of the parts means: the flags and options that stand among
/// them, and the one free token as the name. A free token that begins with a
/// dash is an option that nobody knows; no free token, or more than one, is a
/// count that is wrong, and a free token that is empty names nothing.
pub open spec fn meaning(parts: Seq<Part>) -> Result<ArgsView, ConfigFault> {
    let rest = frees(parts);
    if let Some(i) = first_dashed(rest) {
        Err(ConfigFault::UnknownOption(rest[i]))
    } else if rest.len() == 0 || (rest.len() == 1 && rest[0].len() == 0) {
        Err(ConfigFault::MissingName)
    } else if rest.len() == 1 {
        Ok(
            ArgsView {
                release: mentions(parts, RELEASE@) == 1,
                example: mentions(parts, EXAMPLE@) == 1,
                name: rest[0],
                features: value_in(parts, FEATURES@),
                build_only: mentions(parts, BUILD_ONLY@) == 1,
                host: value_in(parts, HOST@),
                port: value_in(parts, PORT@),
            },
        )
    } else {
        Err(ConfigFault::TooManyArgs(rest))
    }
}

/// A token other than `key` at the head of a line is passed over when `key` is
/// looked for.
proof fn lemma_skip_token(head: Seq<char>, rest: Seq<Seq<char>>, key: Seq<char>)
    requires
        head != key,
    ensures
        without_flag(seq![head] + rest, key) == seq![head] + without_flag(rest, key),
        without_option(seq![head] + rest, key) == seq![head] + without_option(rest, key),
        value_of(seq![head] + rest, key) == value_of(rest, key),
        lacks_value(seq![head] + rest, key) == lacks_value(rest, key),
        (seq![head] + rest).contains(key) == rest.contains(key),
{
    let line = seq![head] + rest;
    assert(line.drop_first() =~= rest);
    lemma_first_position(rest, key);
    lemma_first_position(line, key);
    match first_position(rest, key) {
        Some(i) => {
            assert(first_position(line, key) == Some(i + 1));
            assert(line.remove(i + 1) =~= seq![head] + rest.remove(i));
            if i + 1 < rest.len() {
                assert(line.remove(i + 1).remove(i + 1) =~= seq![head] + rest.remove(i).remove(i));
            }
        },
        None => {
            assert(first_position(line, key) is None);
        },
    }
}

/// Taking the part with the key `key` out of the parts is what taking the key
/// out of their line does, for a flag and for an option with its value.
pub proof fn lemma_part_taken(parts: Seq<Part>, key: Seq<char>)
    requires
        all_plain(parts),
        is_key(key),
    ensures
        all_plain(without_part(parts, key)),
        frees(without_part(parts, key)) == frees(parts),
        mentions(without_part(parts, key), key) == if mentions(parts, key) == 0 {
            0
        } else {
            mentions(parts, key) - 1
        },
        forall|other: Seq<char>|
            other != key ==> #[trigger] mentions(without_part(parts, key), other) == mentions(
                parts,
                other,
            ),
        forall|other: Seq<char>|
            other != key ==> #[trigger] value_in(without_part(parts, key), other) == value_in(
                parts,
                other,
            ),
        is_flag_key(key) ==> without_flag(line_of(parts), key) == line_of(
            without_part(parts, key),
        ),
        is_flag_key(key) ==> line_of(parts).contains(key) == (mentions(parts, key) > 0),
        is_option_key(key) ==> without_option(line_of(parts), key) == line_of(
            without_part(parts, key),
        ),
        is_option_key(key) ==> value_of(line_of(parts), key) == value_in(parts, key),
        is_option_key(key) ==> !lacks_value(line_of(parts), key),
    decreases parts.len(),
{
    lemma_keys();
    let line = line_of(parts);
    if parts.len() == 0 {
        assert(!line.contains(key));
        lemma_first_position(line, key);
    } else {
        let head = parts[0];
        let tail = parts.drop_first();
        let tail_line = line_of(tail);
        let taken = without_part(parts, key);
        assert(all_plain(tail)) by {
            assert forall|i: int| 0 <= i < tail.len() implies (#[trigger] tail[i]).is_plain() by {
                assert(tail[i] == parts[i + 1]);
            }
        }
        assert(head.is_plain());
        lemma_part_taken(tail, key);
        if head.key() == Some(key) {
            assert(taken == tail);
            lemma_first_position(line, key);
            match head {
                Part::Flag(_) => {
                    assert(line =~= seq![key] + tail_line);
                    assert(first_position(line, key) == Some(0int));
                    assert(line.remove(0) =~= tail_line);
                    assert(line[0] == key);
                },
                Part::Valued(_, value) => {
                    assert(line =~= seq![key, value] + tail_line);
                    assert(first_position(line, key) == Some(0int));
                    assert(line.remove(0).remove(0) =~= tail_line);
                },
                Part::Free(_) => {},
            }
        } else {
            let kept = without_part(tail, key);
            assert(taken == seq![head] + kept);
            assert(taken.drop_first() =~= kept);
            assert(taken[0] == head);
            assert(all_plain(taken)) by {
                assert forall|i: int| 0 <= i < taken.len() implies (#[trigger] taken[i]).is_plain() by {
                    if i > 0 {
                        assert(taken[i] == kept[i - 1]);
                    }
                }
            }
            assert forall|other: Seq<char>| other != key implies #[trigger] mentions(
                taken,
                other,
            ) == mentions(parts, other) by {
                assert(mentions(kept, other) == mentions(tail, other));
            }
            assert forall|other: Seq<char>| other != key implies #[trigger] value_in(
                taken,
                other,
            ) == value_in(parts, other) by {
                assert(value_in(kept, other) == value_in(tail, other));
            }
            match head {
                Part::Flag(flag) => {
                    lemma_skip_token(flag.key(), tail_line, key);
                    assert(line_of(taken) == seq![flag.key()] + line_of(kept));
                },
                Part::Valued(option, value) => {
                    lemma_skip_token(value, tail_line, key);
                    lemma_skip_token(option.key(), seq![value] + tail_line, key);
                    assert(line =~= seq![option.key()] + (seq![value] + tail_line));
                    assert(line_of(taken) =~= seq![option.key()] + (seq![value] + line_of(kept)));
                },
                Part::Free(token) => {
                    lemma_skip_token(token, tail_line, key);
                    assert(line_of(taken) == seq![token] + line_of(kept));
                },
            }
        }
    }
}

/// Parts of which none has a key are free tokens, and their line is these
/// tokens.
proof fn lemma_only_frees(parts: Seq<Part>)
    requires
        forall|key: Seq<char>| is_key(key) ==> #[trigger] mentions(parts, key) == 0,
    ensures
        line_of(parts) == frees(parts),
    decreases parts.len(),
{
    if parts.len() > 0 {
        let tail = parts.drop_first();
        match parts[0] {
            Part::Flag(flag) => {
                assert(is_key(flag.key()));
                assert(mentions(parts, flag.key()) == 0);
            },
            Part::Valued(option, _) => {
                assert(is_key(option.key()));
                assert(mentions(parts, option.key()) == 0);
            },
            Part::Free(_) => {
                assert forall|key: Seq<char>| is_key(key) implies #[trigger] mentions(tail, key)
                    == 0 by {
                    assert(mentions(parts, key) == 0);
                }
                lemma_only_frees(tail);
            },
        }
    }
}

/// A command line that is written as flags, options with their values and
/// free tokens, in any order, resolves to what its writer means, provided that
/// no key stands twice and that no value and no free token is itself one of
/// the six keys.
pub proof fn lemma_written_line_resolves(parts: Seq<Part>)
    requires
        all_plain(parts),
        keys_once(parts),
    ensures
        resolve(line_of(parts)) == meaning(parts),
{
    lemma_keys();
    let line = line_of(parts);
    let after_release = without_part(parts, RELEASE@);
    let after_example = without_part(after_release, EXAMPLE@);
    let flagless = without_part(after_example, BUILD_ONLY@);
    let after_feature_list = without_part(flagless, FEATURES@);
    let after_host_part = without_part(after_feature_list, HOST@);
    let left = without_part(after_host_part, PORT@);
    lemma_part_taken(parts, EXAMPLE@);
    lemma_part_taken(parts, BUILD_ONLY@);
    lemma_part_taken(parts, RELEASE@);
    lemma_part_taken(after_release, EXAMPLE@);
    lemma_part_taken(after_example, BUILD_ONLY@);
    lemma_part_taken(flagless, FEATURES@);
    lemma_part_taken(after_feature_list, HOST@);
    lemma_part_taken(after_host_part, PORT@);
    assert(after_flags(line) == line_of(flagless));
    assert(after_features(line) == line_of(after_feature_list));
    assert(after_host(line) == line_of(after_host_part));
    assert(free_tokens(line) == line_of(left));
    assert(unfinished_option(line) is None);
    assert(mentions(parts, RELEASE@) <= 1);
    assert(mentions(parts, EXAMPLE@) <= 1);
    assert(mentions(parts, BUILD_ONLY@) <= 1);
    assert(mentions(parts, FEATURES@) <= 1);
    assert(mentions(parts, HOST@) <= 1);
    assert(mentions(parts, PORT@) <= 1);
    assert forall|key: Seq<char>| is_key(key) implies #[trigger] mentions(left, key) == 0 by {
        assert(mentions(after_release, key) == if key == RELEASE@ {
            0
        } else {
            mentions(parts, key)
        });
        assert(mentions(after_example, key) == if key == EXAMPLE@ {
            0
        } else {
            mentions(after_release, key)
        });
        assert(mentions(flagless, key) == if key == BUILD_ONLY@ {
            0
        } else {
            mentions(after_example, key)
        });
        assert(mentions(after_feature_list, key) == if key == FEATURES@ {
            0
        } else {
            mentions(flagless, key)
        });
        assert(mentions(after_host_part, key) == if key == HOST@ {
            0
        } else {
            mentions(after_feature_list, key)
        });
        assert(mentions(left, key) == if key == PORT@ {
            0
        } else {
            mentions(after_host_part, key)
        });
    }
    lemma_only_frees(left);
    assert(free_tokens(line) == frees(parts));
    assert(value_in(flagless, FEATURES@) == value_in(parts, FEATURES@)) by {
        assert(value_in(after_release, FEATURES@) == value_in(parts, FEATURES@));
        assert(value_in(after_example, FEATURES@) == value_in(after_release, FEATURES@));
    }
    assert(value_in(after_feature_list, HOST@) == value_in(parts, HOST@)) by {
        assert(value_in(after_release, HOST@) == value_in(parts, HOST@));
        assert(value_in(after_example, HOST@) == value_in(after_release, HOST@));
        assert(value_in(flagless, HOST@) == value_in(after_example, HOST@));
    }
    assert(value_in(after_host_part, PORT@) == value_in(parts, PORT@)) by {
        assert(value_in(after_release, PORT@) == value_in(parts, PORT@));
        assert(value_in(after_example, PORT@) == value_in(after_release, PORT@));
        assert(value_in(flagless, PORT@) == value_in(after_example, PORT@));
        assert(value_in(after_feature_list, PORT@) == value_in(flagless, PORT@));
    }
}

/// A free token among the parts is one of their free tokens.
proof fn lemma_free_is_kept(parts: Seq<Part>, at: int)
    requires
        0 <= at < parts.len(),
        parts[at] is Free,
    ensures
        frees(parts).contains(parts[at]->Free_0),
    decreases parts.len(),
{
    let tail = parts.drop_first();
    let token = parts[at]->Free_0;
    if at == 0 {
        assert(frees(parts)[0] == token);
    } else {
        assert(tail[at - 1] == parts[at]);
        lemma_free_is_kept(tail, at - 1);
        let i = choose|i: int| 0 <= i < frees(tail).len() && frees(tail)[i] == token;
        match parts[0] {
            Part::Free(first) => {
                assert(frees(parts)[i + 1] == token);
            },
            _ => {},
        }
    }
}

/// A written line with exactly one free token, which is not empty and does not
/// begin with a dash, resolves, and that token is the name exactly.
pub proof fn lemma_written_name_resolves(parts: Seq<Part>)
    requires
        all_plain(parts),
        keys_once(parts),
        frees(parts).len() == 1,
        frees(parts)[0].len() > 0,
        !is_dashed(frees(parts)[0]),
    ensures
        resolve(line_of(parts)) matches Ok(args) && args.name == frees(parts)[0],
{
    lemma_written_line_resolves(parts);
    lemma_first_dashed(frees(parts));
}

/// A written line without a free token, or with an empty one alone, resolves
/// to a missing name. One with two free tokens or more, none of which begins
/// with a dash, resolves to too many arguments: the free tokens.
pub proof fn lemma_written_count_fails(parts: Seq<Part>)
    requires
        all_plain(parts),
        keys_once(parts),
        frees(parts).len() != 1 || frees(parts)[0].len() == 0,
        forall|i: int| 0 <= i < frees(parts).len() ==> !is_dashed(#[trigger] frees(parts)[i]),
    ensures
        frees(parts).len() <= 1 ==> resolve(line_of(parts)) == Err::<ArgsView, ConfigFault>(
            ConfigFault::MissingName,
        ),
        frees(parts).len() >= 2 ==> resolve(line_of(parts)) == Err::<ArgsView, ConfigFault>(
            ConfigFault::TooManyArgs(frees(parts)),
        ),
{
    lemma_written_line_resolves(parts);
    lemma_first_dashed(frees(parts));
}

/// A written line with a free token that begins with a dash resolves to an
/// unknown option, whatever else stands on it: the first free token that
/// begins with a dash.
pub proof fn lemma_written_unknown_fails(parts: Seq<Part>, at: int)
    requires
        all_plain(parts),
        keys_once(parts),
        0 <= at < parts.len(),
        parts[at] matches Part::Free(token) && is_dashed(token),
    ensures
        first_dashed(frees(parts)) matches Some(i) && resolve(line_of(parts)) == Err::<
            ArgsView,
            ConfigFault,
        >(ConfigFault::UnknownOption(frees(parts)[i])),
{
    lemma_written_line_resolves(parts);
    lemma_free_is_kept(parts, at);
    lemma_first_dashed(frees(parts));
}

} // verus!
