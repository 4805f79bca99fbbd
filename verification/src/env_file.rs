//! The settings file `.env`: one `KEY=value` per line, with blank lines and comments between.

use vstd::prelude::*;
use vstd::slice::slice_subrange;

use crate::text::{
    chars_of, find, find_char, is_white_space, just, law_lines, law_lines_of_parts,
    law_strip_takes_padding, law_trim_takes_padding, lemma_find, lemma_find_bounds, lines, lines_of,
    repeated, string_of, strip, strip_char, trim, trimmed, views,
};

verus! {

/// A value without the white space around it, and then without quotation marks at its ends: first
/// the double ones, then the single ones.
pub open spec fn unquoted(value: Seq<char>) -> Seq<char> {
    strip(strip(trim(value), just('"')), just('\''))
}

/// The key and the value that a line sets, which its first equals sign parts. A blank line, a line
/// that starts with `#` and a line without an equals sign set nothing.
pub open spec fn assignment(line: Seq<char>) -> Option<(Seq<char>, Seq<char>)> {
    let text = trim(line);
    let k = find(text, '=');
    if text.len() == 0 || text[0] == '#' || k >= text.len() {
        None
    } else {
        Some((trim(text.take(k)), unquoted(text.skip(k + 1))))
    }
}

/// What the last of `all` that sets `key` sets it to; empty where none does.
pub open spec fn setting(all: Seq<Seq<char>>, key: Seq<char>) -> Seq<char>
    decreases all.len(),
{
    if all.len() == 0 {
        Seq::empty()
    } else {
        match assignment(all.last()) {
            Some((k, value)) if k == key => value,
            _ => setting(all.drop_last(), key),
        }
    }
}

/// What `line` sets `key` to, if it does.
fn value_in_line(line: &[char], key: &String) -> (r: Option<String>)
    ensures
        r matches Some(value) ==> assignment(line@) == Some((key@, value@)),
        r is None ==> !(assignment(line@) matches Some((k, _)) && k == key@),
{
    let text = trimmed(line);
    if text.len() == 0 || text[0] == '#' {
        return None;
    }
    let k: usize = find_char(text, '=');
    if k >= text.len() {
        return None;
    }
    proof {
        assert(text@.subrange(0, k as int) =~= text@.take(k as int));
        assert(text@.subrange(k + 1, text@.len() as int) =~= text@.skip(k + 1));
    }
    let name = string_of(trimmed(slice_subrange(text, 0, k)));
    if name != *key {
        return None;
    }
    let value = trimmed(slice_subrange(text, k + 1, text.len()));
    Some(string_of(strip_char(strip_char(value, '"'), '\'')))
}

/// The relay address that a settings file with the text `content` asks for; empty where it asks
/// for none.
pub fn custom_relay_url(content: &str) -> (r: String)
    ensures
        r@ == setting(lines(content@), "CUSTOM_RELAY_URL"@),
{
    let key = "CUSTOM_RELAY_URL".to_owned();
    let cs = chars_of(content);
    let all = lines_of(cs.as_slice());
    let ghost model = views(all@);
    let mut relay_url = String::new();
    for i in 0..all.len()
        invariant
            model == views(all@),
            key@ == "CUSTOM_RELAY_URL"@,
            relay_url@ == setting(model.take(i as int), key@),
    {
        proof {
            assert(model.take(i + 1).drop_last() =~= model.take(i as int));
            assert(model.take(i + 1).last() == all@[i as int]@);
        }
        if let Some(value) = value_in_line(all[i].as_slice(), &key) {
            relay_url = value;
        }
    }
    assert(model.take(model.len() as int) =~= model);
    relay_url
}

/// A later line that sets a key wins over all before it.
pub proof fn law_last_assignment_wins(
    all: Seq<Seq<char>>,
    line: Seq<char>,
    key: Seq<char>,
    value: Seq<char>,
)
    requires
        assignment(line) == Some((key, value)),
    ensures
        setting(all.push(line), key) == value,
{
}

/// A line that sets another key, or nothing at all, changes nothing, wherever it stands.
pub proof fn law_other_lines_do_not_matter(
    before: Seq<Seq<char>>,
    line: Seq<char>,
    behind: Seq<Seq<char>>,
    key: Seq<char>,
)
    requires
        !(assignment(line) matches Some((k, _)) && k == key),
    ensures
        setting(before + seq![line] + behind, key) == setting(before + behind, key),
    decreases behind.len(),
{
    let with = before + seq![line] + behind;
    let plain = before + behind;
    if behind.len() == 0 {
        assert(with.drop_last() =~= before);
        assert(plain =~= before);
        assert(with.last() == line);
    } else {
        law_other_lines_do_not_matter(before, line, behind.drop_last(), key);
        assert(with.drop_last() =~= before + seq![line] + behind.drop_last());
        assert(plain.drop_last() =~= before + behind.drop_last());
        assert(with.last() == behind.last());
        assert(plain.last() == behind.last());
    }
}

/// A comment sets nothing, and neither does a blank line.
pub proof fn law_comments_set_nothing(line: Seq<char>)
    requires
        trim(line).len() == 0 || trim(line)[0] == '#',
    ensures
        assignment(line) is None,
{
}

/// What a line with a key, an equals sign and a value sets: the key to the value. White space
/// around either does not count, nor do double quotation marks around the value, nor single ones
/// within these.
pub proof fn law_line_sets_its_key(
    before: Seq<char>,
    key: Seq<char>,
    behind_key: Seq<char>,
    before_value: Seq<char>,
    doubles: (nat, nat),
    singles: (nat, nat),
    value: Seq<char>,
    after: Seq<char>,
)
    requires
        forall|i: int| 0 <= i < before.len() ==> is_white_space(#[trigger] before[i]),
        forall|i: int| 0 <= i < behind_key.len() ==> is_white_space(#[trigger] behind_key[i]),
        forall|i: int| 0 <= i < before_value.len() ==> is_white_space(#[trigger] before_value[i]),
        forall|i: int| 0 <= i < after.len() ==> is_white_space(#[trigger] after[i]),
        !key.contains('='),
        key.len() > 0 ==> key[0] != '#' && !is_white_space(key[0]) && !is_white_space(key.last()),
        value.len() > 0 ==> value[0] != '\'' && value.last() != '\'',
        ({
            let inner = repeated('\'', singles.0) + value + repeated('\'', singles.1);
            let outer = repeated('"', doubles.0) + inner + repeated('"', doubles.1);
            &&& inner.len() > 0 ==> inner[0] != '"' && inner.last() != '"'
            &&& outer.len() > 0 ==> !is_white_space(outer[0]) && !is_white_space(outer.last())
        }),
    ensures
        assignment(
            before + key + behind_key + seq!['='] + before_value + (repeated('"', doubles.0) + (
            repeated('\'', singles.0) + value + repeated('\'', singles.1)) + repeated(
                '"',
                doubles.1,
            )) + after,
        ) == Some((key, value)),
{
    let inner = repeated('\'', singles.0) + value + repeated('\'', singles.1);
    let outer = repeated('"', doubles.0) + inner + repeated('"', doubles.1);
    let line = before + key + behind_key + seq!['='] + before_value + outer + after;
    let none = Seq::<char>::empty();
    let (lead, front) = if key.len() > 0 {
        (before, key + behind_key)
    } else {
        (before + behind_key, none)
    };
    let (gap, trail) = if outer.len() > 0 {
        (before_value, after)
    } else {
        (none, before_value + after)
    };
    let text = front + seq!['='] + gap + outer;
    assert(line =~= lead + text + trail);
    assert forall|i: int| 0 <= i < lead.len() implies is_white_space(#[trigger] lead[i]) by {
        if i >= before.len() {
            assert(lead[i] == behind_key[i - before.len()]);
        }
    }
    assert forall|i: int| 0 <= i < trail.len() implies is_white_space(#[trigger] trail[i]) by {
        if outer.len() == 0 && i >= before_value.len() {
            assert(trail[i] == after[i - before_value.len()]);
        }
    }
    if outer.len() > 0 {
        assert(text.last() == outer.last());
    } else {
        assert(text.last() == '=');
    }
    law_trim_takes_padding(lead, text, trail);
    let k = front.len() as int;
    assert forall|i: int| 0 <= i < k implies text[i] != '=' by {
        if i < key.len() {
            assert(text[i] == key[i]);
            assert(key.contains(key[i]));
        } else {
            assert(text[i] == behind_key[i - key.len()]);
        }
    }
    lemma_find(text, '=', k);
    assert(text.take(k) =~= front);
    assert(text.skip(k + 1) =~= gap + outer);
    if key.len() > 0 {
        assert(none + key + behind_key =~= front);
        law_trim_takes_padding(none, key, behind_key);
    } else {
        assert(none + none + none =~= front);
        law_trim_takes_padding(none, none, none);
        assert(key =~= none);
    }
    assert(gap + outer + none =~= gap + outer);
    law_trim_takes_padding(gap, outer, none);
    law_strip_takes_padding(repeated('"', doubles.0), inner, repeated('"', doubles.1), just('"'));
    law_strip_takes_padding(
        repeated('\'', singles.0),
        value,
        repeated('\'', singles.1),
        just('\''),
    );
}

/// A line without an equals sign sets nothing.
pub proof fn law_no_equals_sign_sets_nothing(line: Seq<char>)
    requires
        !trim(line).contains('='),
    ensures
        assignment(line) is None,
{
    let text = trim(line);
    lemma_find_bounds(text, '=');
    let k = find(text, '=');
    if k < text.len() {
        assert(text[k] == '=');
    }
}

/// A key that no line sets is empty.
pub proof fn law_key_that_is_not_set_is_empty(all: Seq<Seq<char>>, key: Seq<char>)
    requires
        forall|i: int|
            0 <= i < all.len() ==> !(assignment(#[trigger] all[i]) matches Some((k, _)) && k
                == key),
    ensures
        setting(all, key) == Seq::<char>::empty(),
    decreases all.len(),
{
    if all.len() > 0 {
        let init = all.drop_last();
        assert(all[all.len() - 1] == all.last());
        assert forall|i: int| 0 <= i < init.len() implies !(assignment(#[trigger] init[i]) matches
            Some((k, _)) && k == key) by {
            assert(init[i] == all[i]);
        }
        law_key_that_is_not_set_is_empty(init, key);
    }
}

/// In a file, a line that sets a key gives the key its value, whatever lines stand before it and
/// whatever lines that do not set the key stand behind it.
pub proof fn law_file_sets_its_key(
    front: Seq<char>,
    line: Seq<char>,
    rest: Seq<char>,
    key: Seq<char>,
    value: Seq<char>,
)
    requires
        front.len() > 0 ==> front.last() == '\n',
        !line.contains('\n'),
        line.len() > 0 ==> line.last() != '\r',
        assignment(line) == Some((key, value)),
        forall|i: int|
            0 <= i < lines(rest).len() ==> !(assignment(#[trigger] lines(rest)[i]) matches Some(
                (k, _),
            ) && k == key),
    ensures
        setting(lines(front + (line + seq!['\n'] + rest)), key) == value,
{
    law_lines(line, false, rest);
    law_lines_of_parts(front, line + seq!['\n'] + rest);
    let all = lines(front + (line + seq!['\n'] + rest));
    assert(all =~= lines(front).push(line) + lines(rest));
    lemma_setting_stays(lines(front).push(line), lines(rest), key);
    law_last_assignment_wins(lines(front), line, key, value);
}

/// Lines that do not set a key, behind others, leave it as these set it.
proof fn lemma_setting_stays(all: Seq<Seq<char>>, more: Seq<Seq<char>>, key: Seq<char>)
    requires
        forall|i: int|
            0 <= i < more.len() ==> !(assignment(#[trigger] more[i]) matches Some((k, _)) && k
                == key),
    ensures
        setting(all + more, key) == setting(all, key),
    decreases more.len(),
{
    if more.len() == 0 {
        assert(all + more =~= all);
    } else {
        let init = more.drop_last();
        assert forall|i: int| 0 <= i < init.len() implies !(assignment(#[trigger] init[i]) matches
            Some((k, _)) && k == key) by {
            assert(init[i] == more[i]);
        }
        lemma_setting_stays(all, init, key);
        assert((all + more).drop_last() =~= all + init);
        assert((all + more).last() == more[more.len() - 1]);
    }
}

} // verus!
