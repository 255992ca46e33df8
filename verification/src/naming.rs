//! File names that are safe to create.

use vstd::prelude::*;

verus! {

/// Characters that no file name keeps: path separators, the other characters
/// that some file system reserves, and control characters.
pub open spec fn is_reserved_char(c: char) -> bool {
    ||| c == '/'
    ||| c == '?'
    ||| c == '<'
    ||| c == '>'
    ||| c == '\\'
    ||| c == ':'
    ||| c == '*'
    ||| c == '|'
    ||| c == '"'
    ||| c as u32 <= 0x1f
    ||| 0x80 <= c as u32 <= 0x9f
}

/// `name` without its reserved characters.
pub open spec fn stripped(name: Seq<char>) -> Seq<char> {
    name.filter(|c: char| !is_reserved_char(c))
}

/// Whether `s` is made of dots alone.
pub open spec fn all_dots(s: Seq<char>) -> bool {
    forall|i: int| 0 <= i < s.len() ==> #[trigger] s[i] == '.'
}

/// The number of bytes that `c` takes in UTF-8.
pub open spec fn utf8_width(c: char) -> int {
    if (c as u32) < 0x80 {
        1
    } else if (c as u32) < 0x800 {
        2
    } else if (c as u32) < 0x10000 {
        3
    } else {
        4
    }
}

/// The longest prefix of `s` that fits into `budget` bytes of UTF-8.
pub open spec fn clipped(s: Seq<char>, budget: int) -> Seq<char>
    decreases s.len(),
{
    if s.len() == 0 || utf8_width(s[0]) > budget {
        Seq::empty()
    } else {
        seq![s[0]] + clipped(s.skip(1), budget - utf8_width(s[0]))
    }
}

/// `c`, in lower case if it is an ASCII letter.
pub open spec fn ascii_lower(c: char) -> char {
    if 'A' <= c <= 'Z' {
        (c as u32 + 32) as char
    } else {
        c
    }
}

/// Whether `s` begins with the three letters of `word`, in any case.
pub open spec fn begins_with_word(s: Seq<char>, word: Seq<char>) -> bool {
    &&& s.len() >= 3
    &&& forall|i: int| 0 <= i < 3 ==> ascii_lower(#[trigger] s[i]) == word[i]
}

/// Whether `s` names a device on Windows: a device word, alone or followed by
/// a dot and anything else.
pub open spec fn is_device_name(s: Seq<char>) -> bool {
    ||| {
        &&& begins_with_word(s, "con"@) || begins_with_word(s, "prn"@) || begins_with_word(
            s,
            "aux"@,
        ) || begins_with_word(s, "nul"@)
        &&& s.len() == 3 || s[3] == '.'
    }
    ||| {
        &&& begins_with_word(s, "com"@) || begins_with_word(s, "lpt"@)
        &&& s.len() >= 4
        &&& '0' <= s[3] <= '9'
        &&& s.len() == 4 || s[4] == '.'
    }
}

/// The longest file name, in bytes of UTF-8.
pub const MAX_NAME_BYTES: u64 = 255;

/// What becomes of `name` on a Windows target, or on any other. Reserved
/// characters go. Of a name that is then made of dots alone nothing stays, and
/// on Windows nothing of one that names a device. A long name is cut.
pub open spec fn sanitized_on(windows: bool, name: Seq<char>) -> Seq<char> {
    let kept = stripped(name);
    if all_dots(kept) || (windows && is_device_name(kept)) {
        Seq::empty()
    } else {
        clipped(kept, MAX_NAME_BYTES as int)
    }
}

/// Whether `clean` is what becomes of `name`, on whichever target.
pub open spec fn is_sanitized_form(name: Seq<char>, clean: Seq<char>) -> bool {
    clean == sanitized_on(false, name) || clean == sanitized_on(true, name)
}

/// Whether `name`, joined to a folder, names an entry of that very folder: it
/// has no separator, and is neither the folder itself nor its parent.
pub open spec fn stays_in_folder(name: Seq<char>) -> bool {
    &&& forall|i: int| 0 <= i < name.len() ==> #[trigger] name[i] != '/' && name[i] != '\\'
    &&& name != seq!['.']
    &&& name != seq!['.', '.']
}

/// The bytes that `s` takes in UTF-8.
pub open spec fn utf8_size(s: Seq<char>) -> int
    decreases s.len(),
{
    if s.len() == 0 {
        0
    } else {
        utf8_width(s[0]) + utf8_size(s.skip(1))
    }
}

/// What `clipped` keeps is a prefix, fits, and is everything if everything fits.
pub proof fn lemma_clipped(s: Seq<char>, budget: int)
    requires
        budget >= 0,
    ensures
        clipped(s, budget).is_prefix_of(s),
        utf8_size(clipped(s, budget)) <= budget,
        clipped(s, budget) == s || utf8_size(clipped(s, budget)) > budget - 4,
        utf8_size(s) <= budget ==> clipped(s, budget) == s,
    decreases s.len(),
{
    if s.len() == 0 {
        assert(clipped(s, budget) == s);
    } else if utf8_width(s[0]) > budget {
        lemma_size_is_natural(s.skip(1));
    } else {
        let rest = s.skip(1);
        let kept = clipped(rest, budget - utf8_width(s[0]));
        lemma_clipped(rest, budget - utf8_width(s[0]));
        let all = seq![s[0]] + kept;
        assert(all.skip(1) == kept);
        assert(all[0] == s[0]);
        assert(s == seq![s[0]] + rest);
        assert(all.is_prefix_of(s));
    }
}

/// A sanitized name stays in the folder that it is joined to.
pub proof fn law_sanitized_name_stays_in_folder(name: Seq<char>, clean: Seq<char>)
    requires
        is_sanitized_form(name, clean),
    ensures
        stays_in_folder(clean),
        utf8_size(clean) <= MAX_NAME_BYTES,
{
    let kept = stripped(name);
    let ok = |c: char| !is_reserved_char(c);
    assert forall|i: int| 0 <= i < kept.len() implies !is_reserved_char(#[trigger] kept[i]) by {
        broadcast use vstd::seq_lib::group_filter_ensures;

        assert(ok(kept[i]));
    }
    lemma_clipped(kept, MAX_NAME_BYTES as int);
    let cut = clipped(kept, MAX_NAME_BYTES as int);
    assert forall|i: int| 0 <= i < cut.len() implies cut[i] == kept[i] by {}
    reveal_with_fuel(utf8_size, 3);
    if cut == seq!['.'] || cut == seq!['.', '.'] {
        assert(cut == kept);
        assert(all_dots(kept));
    }
}

/// A name that has no reserved character, is not made of dots alone, names no
/// device and is short enough comes back unchanged.
pub proof fn law_clean_name_is_kept(name: Seq<char>, clean: Seq<char>)
    requires
        is_sanitized_form(name, clean),
        forall|i: int| 0 <= i < name.len() ==> !is_reserved_char(#[trigger] name[i]),
        !all_dots(name),
        !is_device_name(name),
        utf8_size(name) <= MAX_NAME_BYTES,
    ensures
        clean == name,
{
    let ok = |c: char| !is_reserved_char(c);
    lemma_filter_keeps_all(name, ok);
    lemma_clipped(name, MAX_NAME_BYTES as int);
}

/// Filtering by a test that every item passes changes nothing.
proof fn lemma_filter_keeps_all(s: Seq<char>, ok: spec_fn(char) -> bool)
    requires
        forall|i: int| 0 <= i < s.len() ==> ok(#[trigger] s[i]),
    ensures
        s.filter(ok) == s,
    decreases s.len(),
{
    reveal(Seq::filter);
    if s.len() > 0 {
        lemma_filter_keeps_all(s.drop_last(), ok);
        assert(s.drop_last().push(s.last()) == s);
    }
}

/// A size is never negative.
proof fn lemma_size_is_natural(s: Seq<char>)
    ensures
        utf8_size(s) >= 0,
    decreases s.len(),
{
    if s.len() > 0 {
        lemma_size_is_natural(s.skip(1));
    }
}

/// A sanitized name has only characters of the name itself, and none of those that
/// separate paths, that a file system reserves, or that control a terminal.
pub proof fn law_sanitized_name_is_plain(name: Seq<char>, clean: Seq<char>, i: int)
    requires
        is_sanitized_form(name, clean),
        0 <= i < clean.len(),
    ensures
        name.contains(clean[i]),
        clean[i] != '/' && clean[i] != '\\' && clean[i] != '?' && clean[i] != '<' && clean[i] != '>',
        clean[i] != ':' && clean[i] != '*' && clean[i] != '|' && clean[i] != '"',
        clean[i] as u32 > 0x1f,
        !(0x80 <= clean[i] as u32 <= 0x9f),
{
    broadcast use vstd::seq_lib::group_filter_ensures;

    let kept = stripped(name);
    let ok = |c: char| !is_reserved_char(c);
    lemma_clipped(kept, MAX_NAME_BYTES as int);
    assert(clean[i] == kept[i]);
    assert(ok(kept[i]));
    lemma_filter_keeps_own(name, ok, i);
}

/// What passes a filter was there before.
proof fn lemma_filter_keeps_own(s: Seq<char>, ok: spec_fn(char) -> bool, i: int)
    requires
        0 <= i < s.filter(ok).len(),
    ensures
        s.contains(s.filter(ok)[i]),
    decreases s.len(),
{
    reveal(Seq::filter);
    if s.len() > 0 {
        let rest = s.drop_last();
        let all = s.filter(ok);
        if i < rest.filter(ok).len() {
            lemma_filter_keeps_own(rest, ok, i);
            let k = choose|k: int| 0 <= k < rest.len() && rest[k] == rest.filter(ok)[i];
            assert(s[k] == all[i]);
        } else {
            assert(s[s.len() - 1] == all[i]);
        }
    }
}

/// A name that does not lead out of a folder has no separator, and is not that of a
/// parent.
pub proof fn law_staying_name(name: Seq<char>)
    requires
        stays_in_folder(name),
    ensures
        !name.contains('/'),
        !name.contains('\\'),
        name != ".."@,
        name != "."@,
{
    reveal_strlit("..");
    reveal_strlit(".");
    assert(".."@ =~= seq!['.', '.']);
    assert("."@ =~= seq!['.']);
}

} // verus!
