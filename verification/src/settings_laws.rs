//! Settings that are written and read again are the same settings.

use crate::decimal::{
    decimal_digits, is_digit, lemma_decimal_digits, lemma_parse_decimal_digits,
    lemma_parse_signed_decimal, signed_decimal,
};
use crate::error::Failure;
use crate::settings::{
    AlignSetting, LineSetting, VerticalSetting, VttSettings, align_value, align_word, apply_setting,
    apply_settings, format_settings, line_value, line_word, no_settings, optional_word, parse_align,
    parse_line, parse_percentage, parse_settings_line, parse_vertical, percentage_word,
    position_value, setting_word, settings_words, size_value, vertical_value, vertical_word,
};
use crate::text;
use crate::text::colon;
use crate::text_laws::{lemma_find_after, lemma_split_whitespace_join};
use vstd::prelude::*;

verus! {

/// The characters that the keys and values of settings are written with.
pub open spec fn is_plain(c: char) -> bool {
    ('a' <= c && c <= 'z') || is_digit(c) || c == '-' || c == '%'
}

/// `s` is made of plain characters.
pub open spec fn plain(s: Seq<char>) -> bool {
    forall|i: int| 0 <= i < s.len() ==> is_plain(#[trigger] s[i])
}

/// `w` is not empty and made of plain characters and colons, as the words of
/// settings are.
pub open spec fn is_setting_word(w: Seq<char>) -> bool {
    w.len() > 0 && forall|i: int| 0 <= i < w.len() ==> is_plain(#[trigger] w[i]) || w[i] == ':'
}

/// A word of settings is a word.
pub proof fn lemma_setting_word_is_word(w: Seq<char>)
    requires
        is_setting_word(w),
    ensures
        text::is_word(w),
{
    assert forall|i: int| 0 <= i < w.len() implies !text::whitespace()(#[trigger] w[i]) by {
        assert(is_plain(w[i]) || w[i] == ':');
    }
}

/// What the keys are made of.
proof fn lemma_plain_keys()
    ensures
        plain("vertical"@),
        plain("line"@),
        plain("position"@),
        plain("size"@),
        plain("align"@),
        "vertical"@.len() == 8,
        "line"@.len() == 4,
        "position"@.len() == 8,
        "size"@.len() == 4,
        "align"@.len() == 5,
        "vertical"@[0] == 'v',
        "line"@[0] == 'l',
        "position"@[0] == 'p',
        "size"@[0] == 's',
{
    reveal_strlit("vertical");
    reveal_strlit("line");
    reveal_strlit("position");
    reveal_strlit("size");
    reveal_strlit("align");
}

/// What the values that are words are made of.
proof fn lemma_plain_values()
    ensures
        plain("rl"@),
        plain("lr"@),
        plain("auto"@),
        plain("start"@),
        plain("middle"@),
        plain("end"@),
        plain("left"@),
        plain("right"@),
        "rl"@[0] == 'r',
        "lr"@[0] == 'l',
        "auto"@.len() == 4,
        "auto"@[0] == 'a',
        "auto"@[3] == 'o',
        "start"@[0] == 's',
        "middle"@[0] == 'm',
        "end"@[0] == 'e',
        "left"@[0] == 'l',
        "right"@[0] == 'r',
{
    reveal_strlit("rl");
    reveal_strlit("lr");
    reveal_strlit("auto");
    reveal_strlit("start");
    reveal_strlit("middle");
    reveal_strlit("end");
    reveal_strlit("left");
    reveal_strlit("right");
}

/// A key, a colon and a value make one word, and the key ends at the first colon.
proof fn lemma_setting_word(key: Seq<char>, value: Seq<char>)
    requires
        plain(key),
        plain(value),
    ensures
        is_setting_word(setting_word(key, value)),
        text::find(setting_word(key, value), colon()) == Some(key.len() as int),
        setting_word(key, value).take(key.len() as int) == key,
        setting_word(key, value).skip(key.len() as int + 1) == value,
{
    let word = setting_word(key, value);
    assert forall|i: int| 0 <= i < key.len() implies #[trigger] key[i] != ':' by {
        assert(is_plain(key[i]));
    }
    lemma_find_after(key, colon(), value);
    assert(word.take(key.len() as int) =~= key);
    assert(word.skip(key.len() as int + 1) =~= value);
    assert forall|i: int| 0 <= i < word.len() implies is_plain(#[trigger] word[i]) || word[i]
        == ':' by {
        if i < key.len() {
            assert(is_plain(key[i]));
        } else if i > key.len() {
            assert(is_plain(value[i - key.len() - 1]));
        }
    }
}

/// A written direction is read as the direction.
proof fn lemma_vertical(v: VerticalSetting)
    ensures
        plain(vertical_word(v)),
        parse_vertical(vertical_word(v)) == Some(v),
{
    lemma_plain_values();
}

/// A written alignment is read as the alignment.
proof fn lemma_align(a: AlignSetting)
    ensures
        plain(align_word(a)),
        parse_align(align_word(a)) == Some(a),
{
    lemma_plain_values();
}

/// A written percentage is read as the percentage.
proof fn lemma_percentage(n: u32)
    ensures
        plain(percentage_word(n)),
        parse_percentage(percentage_word(n)) == Some(n),
        percentage_word(n) != "auto"@,
{
    let digits = decimal_digits(n as nat);
    let word = percentage_word(n);
    lemma_decimal_digits(n as nat);
    lemma_parse_decimal_digits(n as nat, u32::MAX as nat);
    lemma_plain_values();
    assert(word.drop_last() =~= digits);
    assert(word.last() == '%');
    assert forall|i: int| 0 <= i < word.len() implies is_plain(#[trigger] word[i]) by {
        if i < digits.len() {
            assert(is_digit(digits[i]));
        }
    }
}

/// A written line placement is read as the line placement.
proof fn lemma_line(l: LineSetting)
    ensures
        plain(line_word(l)),
        parse_line(line_word(l)) == Ok::<LineSetting, Failure>(l),
{
    lemma_plain_values();
    match l {
        LineSetting::Percentage(n) => {
            lemma_percentage(n);
            assert(percentage_word(n).last() == '%');
        },
        LineSetting::Number(n) => {
            let word = signed_decimal(n as int);
            lemma_parse_signed_decimal(n as int, i32::MIN as int, i32::MAX as int);
            if n < 0 {
                let digits = decimal_digits((-n) as nat);
                lemma_decimal_digits((-n) as nat);
                assert(word[0] == '-');
                assert(word.last() == digits.last());
                assert(is_digit(digits[digits.len() - 1]));
                assert forall|i: int| 0 <= i < word.len() implies is_plain(#[trigger] word[i]) by {
                    if i > 0 {
                        assert(is_digit(digits[i - 1]));
                    }
                }
            } else {
                lemma_decimal_digits(n as nat);
                assert(is_digit(word[0]));
                assert(is_digit(word[word.len() - 1]));
                assert forall|i: int| 0 <= i < word.len() implies is_plain(#[trigger] word[i]) by {
                    assert(is_digit(word[i]));
                }
            }
        },
        LineSetting::Auto => {},
    }
}

/// The word of a direction sets the direction.
proof fn lemma_apply_vertical(settings: VttSettings, v: VerticalSetting)
    ensures
        is_setting_word(setting_word("vertical"@, vertical_word(v))),
        apply_setting(settings, setting_word("vertical"@, vertical_word(v))) == Ok::<
            VttSettings,
            Failure,
        >(VttSettings { vertical: Some(v), ..settings }),
{
    lemma_plain_keys();
    lemma_vertical(v);
    lemma_setting_word("vertical"@, vertical_word(v));
}

/// The word of a line placement sets the line placement.
proof fn lemma_apply_line(settings: VttSettings, l: LineSetting)
    ensures
        is_setting_word(setting_word("line"@, line_word(l))),
        apply_setting(settings, setting_word("line"@, line_word(l))) == Ok::<
            VttSettings,
            Failure,
        >(VttSettings { line: Some(l), ..settings }),
{
    lemma_plain_keys();
    lemma_line(l);
    lemma_setting_word("line"@, line_word(l));
}

/// The word of a position sets the position.
proof fn lemma_apply_position(settings: VttSettings, n: u32)
    ensures
        is_setting_word(setting_word("position"@, percentage_word(n))),
        apply_setting(settings, setting_word("position"@, percentage_word(n))) == Ok::<
            VttSettings,
            Failure,
        >(VttSettings { position: Some(n), ..settings }),
{
    lemma_plain_keys();
    lemma_percentage(n);
    lemma_setting_word("position"@, percentage_word(n));
}

/// The word of a size sets the size.
proof fn lemma_apply_size(settings: VttSettings, n: u32)
    ensures
        is_setting_word(setting_word("size"@, percentage_word(n))),
        apply_setting(settings, setting_word("size"@, percentage_word(n))) == Ok::<
            VttSettings,
            Failure,
        >(VttSettings { size: Some(n), ..settings }),
{
    lemma_plain_keys();
    lemma_percentage(n);
    lemma_setting_word("size"@, percentage_word(n));
}

/// The word of an alignment sets the alignment.
proof fn lemma_apply_align(settings: VttSettings, a: AlignSetting)
    ensures
        is_setting_word(setting_word("align"@, align_word(a))),
        apply_setting(settings, setting_word("align"@, align_word(a))) == Ok::<
            VttSettings,
            Failure,
        >(VttSettings { align: Some(a), ..settings }),
{
    lemma_plain_keys();
    lemma_align(a);
    lemma_setting_word("align"@, align_word(a));
}

/// Applying words one after the other is applying the first ones, then the others.
pub proof fn lemma_apply_settings_concat(
    settings: VttSettings,
    first: Seq<Seq<char>>,
    second: Seq<Seq<char>>,
)
    ensures
        apply_settings(settings, first + second) == match apply_settings(settings, first) {
            Ok(next) => apply_settings(next, second),
            Err(e) => Err(e),
        },
    decreases first.len(),
{
    if first.len() == 0 {
        assert(first + second =~= second);
    } else {
        assert((first + second)[0] == first[0]);
        assert((first + second).drop_first() =~= first.drop_first() + second);
        match apply_setting(settings, first[0]) {
            Ok(next) => {
                lemma_apply_settings_concat(next, first.drop_first(), second);
            },
            Err(e) => {},
        }
    }
}

/// Applying one word.
proof fn lemma_apply_one(settings: VttSettings, word: Seq<char>)
    ensures
        apply_settings(settings, seq![word]) == apply_setting(settings, word),
{
    let words = seq![word];
    assert(words[0] == word);
    assert(words.drop_first() =~= Seq::<Seq<char>>::empty());
    match apply_setting(settings, word) {
        Ok(next) => {
            assert(apply_settings(next, words.drop_first()) == Ok::<VttSettings, Failure>(next));
        },
        Err(e) => {},
    }
}

/// The settings that specify what `settings` specifies in its first `fields`
/// fields, in the order in which the fields are written, and nothing else.
pub open spec fn first_fields(settings: VttSettings, fields: nat) -> VttSettings {
    VttSettings {
        vertical: if fields >= 1 {
            settings.vertical
        } else {
            None
        },
        line: if fields >= 2 {
            settings.line
        } else {
            None
        },
        position: if fields >= 3 {
            settings.position
        } else {
            None
        },
        size: if fields >= 4 {
            settings.size
        } else {
            None
        },
        align: if fields >= 5 {
            settings.align
        } else {
            None
        },
    }
}

/// The words of the first `fields` fields.
pub open spec fn first_words(settings: VttSettings, fields: nat) -> Seq<Seq<char>> {
    settings_words(first_fields(settings, fields))
}

/// The word of one field, where the field is specified, is applied as that field.
proof fn lemma_apply_field(settings: VttSettings, fields: nat)
    requires
        1 <= fields <= 5,
    ensures
        first_words(settings, fields) == first_words(settings, (fields - 1) as nat) + (
        first_words(settings, fields).skip(
            first_words(settings, (fields - 1) as nat).len() as int,
        )),
        apply_settings(
            first_fields(settings, (fields - 1) as nat),
            first_words(settings, fields).skip(
                first_words(settings, (fields - 1) as nat).len() as int,
            ),
        ) == Ok::<VttSettings, Failure>(first_fields(settings, fields)),
        forall|i: int|
            first_words(settings, (fields - 1) as nat).len() <= i < first_words(
                settings,
                fields,
            ).len() ==> is_setting_word(#[trigger] first_words(settings, fields)[i]),
{
    let before = first_fields(settings, (fields - 1) as nat);
    let after = first_fields(settings, fields);
    let done = first_words(settings, (fields - 1) as nat);
    let all = first_words(settings, fields);
    let empty = Seq::<Seq<char>>::empty();
    let added = if fields == 1 {
        optional_word("vertical"@, vertical_value(settings))
    } else if fields == 2 {
        optional_word("line"@, line_value(settings))
    } else if fields == 3 {
        optional_word("position"@, position_value(settings))
    } else if fields == 4 {
        optional_word("size"@, size_value(settings))
    } else {
        optional_word("align"@, align_value(settings))
    };
    assert(all =~= done + added);
    assert(all.skip(done.len() as int) =~= added);
    if added.len() == 0 {
        assert(after == before);
    } else {
        lemma_apply_one(before, added[0]);
        assert(added =~= seq![added[0]]);
        if fields == 1 {
            lemma_apply_vertical(before, settings.vertical->0);
        } else if fields == 2 {
            lemma_apply_line(before, settings.line->0);
        } else if fields == 3 {
            lemma_apply_position(before, settings.position->0);
        } else if fields == 4 {
            lemma_apply_size(before, settings.size->0);
        } else {
            lemma_apply_align(before, settings.align->0);
        }
        assert(all[done.len() as int] == added[0]);
    }
}

/// The words of the first fields are applied as those fields.
proof fn lemma_apply_fields(settings: VttSettings, fields: nat)
    requires
        fields <= 5,
    ensures
        apply_settings(no_settings(), first_words(settings, fields)) == Ok::<
            VttSettings,
            Failure,
        >(first_fields(settings, fields)),
        forall|i: int|
            0 <= i < first_words(settings, fields).len() ==> is_setting_word(
                #[trigger] first_words(settings, fields)[i],
            ),
    decreases fields,
{
    if fields == 0 {
        assert(first_words(settings, 0) =~= Seq::<Seq<char>>::empty());
    } else {
        let done = first_words(settings, (fields - 1) as nat);
        let all = first_words(settings, fields);
        lemma_apply_fields(settings, (fields - 1) as nat);
        lemma_apply_field(settings, fields);
        lemma_apply_settings_concat(no_settings(), done, all.skip(done.len() as int));
        assert forall|i: int| 0 <= i < all.len() implies is_setting_word(#[trigger] all[i]) by {
            if i < done.len() {
                assert(all[i] == done[i]);
            }
        }
    }
}

/// Each word of written settings is made of plain characters and colons.
pub proof fn lemma_settings_words(settings: VttSettings)
    ensures
        forall|i: int|
            0 <= i < settings_words(settings).len() ==> is_setting_word(
                #[trigger] settings_words(settings)[i],
            ),
        forall|i: int|
            0 <= i < settings_words(settings).len() ==> text::is_word(
                #[trigger] settings_words(settings)[i],
            ),
{
    lemma_apply_fields(settings, 5);
    assert(first_fields(settings, 5) == settings);
    let words = settings_words(settings);
    assert forall|i: int| 0 <= i < words.len() implies text::is_word(#[trigger] words[i]) by {
        lemma_setting_word_is_word(words[i]);
    }
}

/// Settings that are written and read again are the same settings, field for
/// field: reading undoes writing, for all settings there are.
pub proof fn lemma_settings_round_trip(settings: VttSettings)
    ensures
        parse_settings_line(format_settings(settings)) == Ok::<VttSettings, Failure>(settings),
{
    lemma_apply_fields(settings, 5);
    assert(first_fields(settings, 5) == settings);
    lemma_settings_words(settings);
    lemma_split_whitespace_join(settings_words(settings));
}

/// Settings that were read from any text are written as a text that is read
/// as the same settings, whatever the order and the spacing of the words
/// were, and whichever keys came twice.
pub proof fn lemma_settings_stable(s: Seq<char>)
    requires
        parse_settings_line(s) is Ok,
    ensures
        parse_settings_line(format_settings(parse_settings_line(s)->Ok_0)) == parse_settings_line(
            s,
        ),
{
    lemma_settings_round_trip(parse_settings_line(s)->Ok_0);
}

/// Settings after a word specify something.
proof fn lemma_apply_setting_specifies(settings: VttSettings, word: Seq<char>)
    requires
        apply_setting(settings, word) is Ok,
    ensures
        apply_setting(settings, word)->Ok_0 != no_settings(),
{
}

/// Settings after words specify something, where there is a word or where
/// they did before.
pub proof fn lemma_apply_settings_specifies(settings: VttSettings, words: Seq<Seq<char>>)
    requires
        apply_settings(settings, words) is Ok,
        words.len() > 0 || settings != no_settings(),
    ensures
        apply_settings(settings, words)->Ok_0 != no_settings(),
    decreases words.len(),
{
    if words.len() > 0 {
        lemma_apply_setting_specifies(settings, words[0]);
        lemma_apply_settings_specifies(apply_setting(settings, words[0])->Ok_0, words.drop_first());
    }
}

} // verus!
