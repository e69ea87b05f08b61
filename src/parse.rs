//! Reading credential lists out of text: comma lists, one item per line,
//! wordlist files; and writing them back.

use vstd::prelude::*;
use crate::text::{
    char_vec, has_prefix, matches_at, starts_with_text, string_from, string_from_chars, strings_view,
    trim_of, trimmed,
};

verus! {

/// The pieces of `s` between occurrences of `sep`, in order; `n` separators
/// give `n + 1` pieces, empty ones included.
pub open spec fn split_seq(s: Seq<char>, sep: char) -> Seq<Seq<char>>
    decreases s.len(),
{
    if s.len() == 0 {
        seq![Seq::empty()]
    } else {
        let prev = split_seq(s.drop_last(), sep);
        if s.last() == sep {
            prev.push(Seq::empty())
        } else {
            prev.update(prev.len() - 1, prev.last().push(s.last()))
        }
    }
}

proof fn lemma_split_nonempty(s: Seq<char>, sep: char)
    ensures
        split_seq(s, sep).len() >= 1,
    decreases s.len(),
{
    if s.len() > 0 {
        lemma_split_nonempty(s.drop_last(), sep);
    }
}

/// Each piece trimmed.
pub open spec fn trim_each(pieces: Seq<Seq<char>>) -> Seq<Seq<char>> {
    pieces.map_values(|p: Seq<char>| trim_of(p))
}

/// The pieces that are not empty.
pub open spec fn non_empty(pieces: Seq<Seq<char>>) -> Seq<Seq<char>> {
    pieces.filter(|p: Seq<char>| p.len() > 0)
}

/// A wordlist line that carries an entry: not empty, and not a `#` comment.
pub open spec fn is_entry(p: Seq<char>) -> bool {
    p.len() > 0 && p[0] != '#'
}

/// The items of a comma-separated list: the pieces between commas, trimmed,
/// empty ones dropped.
pub open spec fn comma_items(s: Seq<char>) -> Seq<Seq<char>> {
    non_empty(trim_each(split_seq(s, ',')))
}

/// The items of a text with one item per line: the lines, trimmed, empty ones dropped.
pub open spec fn line_items(s: Seq<char>) -> Seq<Seq<char>> {
    non_empty(trim_each(split_seq(s, '\n')))
}

/// The entries of a wordlist file: its lines, trimmed, without empty lines and comments.
pub open spec fn wordlist_entries(s: Seq<char>) -> Seq<Seq<char>> {
    trim_each(split_seq(s, '\n')).filter(|p: Seq<char>| is_entry(p))
}

/// Why a list could not be read.
#[derive(Debug, PartialEq, Eq, Structural, Clone, Copy)]
pub enum InputError {
    /// The wordlist holds no entry.
    EmptyList,
}

/// The pieces of `input` between occurrences of `sep`.
pub fn split_on(input: &str, sep: char) -> (r: Vec<String>)
    ensures
        strings_view(r@) == split_seq(input@, sep),
{
    let cs = char_vec(input);
    let mut r: Vec<String> = Vec::new();
    let mut cur: Vec<char> = Vec::new();
    let mut i: usize = 0;
    while i < cs.len()
        invariant
            cs@ == input@,
            i <= cs@.len(),
            strings_view(r@).push(cur@) == split_seq(input@.subrange(0, i as int), sep),
        decreases cs@.len() - i,
    {
        let c = cs[i];
        let ghost prefix = input@.subrange(0, i + 1);
        assert(prefix.drop_last() =~= input@.subrange(0, i as int));
        let ghost before_r = strings_view(r@);
        let ghost before_cur = cur@;
        proof {
            lemma_split_nonempty(input@.subrange(0, i as int), sep);
        }
        if c == sep {
            let piece = string_from_chars(&cur);
            r.push(piece);
            cur = Vec::new();
            assert(strings_view(r@) =~= before_r.push(before_cur));
            assert(strings_view(r@).push(cur@) =~= before_r.push(before_cur).push(Seq::empty()));
        } else {
            cur.push(c);
            assert(strings_view(r@) == before_r);
            assert(cur@ == before_cur.push(c));
            assert(strings_view(r@).push(cur@) =~= before_r.push(before_cur).update(
                before_r.len() as int,
                before_cur.push(c),
            ));
        }
        i += 1;
    }
    let last = string_from_chars(&cur);
    let ghost before_r = strings_view(r@);
    r.push(last);
    assert(strings_view(r@) =~= before_r.push(cur@));
    assert(input@.subrange(0, input@.len() as int) =~= input@);
    r
}

/// Every piece trimmed.
pub fn trim_all(pieces: &Vec<String>) -> (r: Vec<String>)
    ensures
        strings_view(r@) == trim_each(strings_view(pieces@)),
{
    let mut r: Vec<String> = Vec::new();
    let mut i: usize = 0;
    while i < pieces.len()
        invariant
            i <= pieces@.len(),
            r@.len() == i,
            forall|j: int| 0 <= j < i ==> #[trigger] r@[j]@ == trim_of(pieces@[j]@),
        decreases pieces@.len() - i,
    {
        let t = trimmed(pieces[i].as_str());
        r.push(t);
        i += 1;
    }
    assert(strings_view(r@) =~= trim_each(strings_view(pieces@)));
    r
}

/// The pieces that are not empty, in order; with `skip_comments`, also
/// without those that start with `#`.
pub fn keep_entries(pieces: Vec<String>, skip_comments: bool) -> (r: Vec<String>)
    ensures
        skip_comments ==> strings_view(r@) == strings_view(pieces@).filter(|p: Seq<char>| is_entry(p)),
        !skip_comments ==> strings_view(r@) == non_empty(strings_view(pieces@)),
{
    let ghost all = strings_view(pieces@);
    let ghost pred = if skip_comments {
        |p: Seq<char>| is_entry(p)
    } else {
        |p: Seq<char>| p.len() > 0
    };
    let mut r: Vec<String> = Vec::new();
    let mut i: usize = 0;
    while i < pieces.len()
        invariant
            i <= pieces@.len(),
            all == strings_view(pieces@),
            pred == (if skip_comments {
                |p: Seq<char>| is_entry(p)
            } else {
                |p: Seq<char>| p.len() > 0
            }),
            strings_view(r@) == all.subrange(0, i as int).filter(pred),
        decreases pieces@.len() - i,
    {
        let p = &pieces[i];
        let cs = char_vec(p.as_str());
        let keep = if cs.len() == 0 {
            false
        } else if skip_comments {
            cs[0] != '#'
        } else {
            true
        };
        proof {
            assert(all.subrange(0, i + 1) =~= all.subrange(0, i as int).push(all[i as int]));
            all.subrange(0, i as int).lemma_filter_push(all[i as int], pred);
            assert(keep == pred(all[i as int]));
        }
        let ghost before = strings_view(r@);
        if keep {
            r.push(p.clone());
            assert(strings_view(r@) =~= before.push(p@));
        }
        i += 1;
    }
    assert(all.subrange(0, all.len() as int) =~= all);
    r
}

/// The items of a comma-separated list, trimmed, without empty ones.
pub fn parse_comma_separated(input: &str) -> (r: Vec<String>)
    ensures
        strings_view(r@) == comma_items(input@),
{
    let pieces = split_on(input, ',');
    keep_entries(trim_all(&pieces), false)
}

/// The lines of a text, trimmed, without empty ones.
pub fn parse_multiline(input: &str) -> (r: Vec<String>)
    ensures
        strings_view(r@) == line_items(input@),
{
    let pieces = split_on(input, '\n');
    keep_entries(trim_all(&pieces), false)
}

/// The entries of a wordlist file's contents: its lines, trimmed, without
/// empty lines and `#` comments; `EmptyList` where none is left.
pub fn parse_wordlist(content: &str) -> (r: Result<Vec<String>, InputError>)
    ensures
        match r {
            Ok(v) => strings_view(v@) == wordlist_entries(content@) && v@.len() > 0,
            Err(e) => e == InputError::EmptyList && wordlist_entries(content@).len() == 0,
        },
{
    let pieces = split_on(content, '\n');
    let items = keep_entries(trim_all(&pieces), true);
    if items.len() == 0 {
        Err(InputError::EmptyList)
    } else {
        Ok(items)
    }
}

/// Whether `c` occurs in `s`.
pub fn has_char(s: &str, c: char) -> (r: bool)
    ensures
        r == s@.contains(c),
{
    let cs = char_vec(s);
    let mut i: usize = 0;
    while i < cs.len()
        invariant
            cs@ == s@,
            i <= cs@.len(),
            forall|j: int| 0 <= j < i ==> cs@[j] != c,
        decreases cs@.len() - i,
    {
        if cs[i] == c {
            return true;
        }
        i += 1;
    }
    false
}

/// The items of an input given inline (not a file): a comma list where it
/// holds a comma, else the lines where it holds a newline, else the input
/// itself as the one item, unless it is empty or only whitespace, which
/// gives no item.
pub open spec fn inline_items(s: Seq<char>) -> Seq<Seq<char>> {
    if s.contains(',') {
        comma_items(s)
    } else if s.contains('\n') {
        line_items(s)
    } else if trim_of(s).len() == 0 {
        Seq::empty()
    } else {
        seq![s]
    }
}

/// The items of an input given inline: see `inline_items`.
pub fn parse_inline(input: &str) -> (r: Vec<String>)
    ensures
        strings_view(r@) == inline_items(input@),
{
    if has_char(input, ',') {
        parse_comma_separated(input)
    } else if has_char(input, '\n') {
        parse_multiline(input)
    } else {
        let mut r: Vec<String> = Vec::new();
        if trimmed(input).as_str().is_empty() {
            assert(strings_view(r@) =~= Seq::<Seq<char>>::empty());
            return r;
        }
        r.push(input.to_owned());
        assert(strings_view(r@) =~= seq![input@]);
        r
    }
}

/// The strings of `items` joined with commas.
pub open spec fn join_commas(items: Seq<Seq<char>>) -> Seq<char>
    decreases items.len(),
{
    if items.len() == 0 {
        Seq::empty()
    } else if items.len() == 1 {
        items[0]
    } else {
        join_commas(items.drop_last()) + seq![','] + items.last()
    }
}

/// The items joined with commas.
pub fn vec_to_comma_separated(items: &[String]) -> (r: String)
    ensures
        r@ == join_commas(strings_view(items@)),
{
    let mut r = String::new();
    let mut i: usize = 0;
    while i < items.len()
        invariant
            i <= items@.len(),
            r@ == join_commas(strings_view(items@.subrange(0, i as int))),
        decreases items@.len() - i,
    {
        let ghost sub = strings_view(items@.subrange(0, i + 1));
        assert(sub.drop_last() =~= strings_view(items@.subrange(0, i as int)));
        if i > 0 {
            r.append(",");
            proof {
                reveal_strlit(",");
            }
        }
        r.append(items[i].as_str());
        proof {
            if i == 0 {
                assert(r@ =~= sub[0]);
            } else {
                assert(r@ =~= join_commas(sub.drop_last()) + seq![','] + sub.last());
            }
        }
        i += 1;
    }
    assert(items@.subrange(0, items@.len() as int) =~= items@);
    r
}

/// The XML text for one character.
pub open spec fn xml_escape_char(c: char) -> Seq<char> {
    if c == '&' {
        "&amp;"@
    } else if c == '<' {
        "&lt;"@
    } else if c == '>' {
        "&gt;"@
    } else if c == '"' {
        "&quot;"@
    } else if c == '\'' {
        "&apos;"@
    } else {
        seq![c]
    }
}

/// `s` with `&`, `<`, `>`, `"` and `'` written as XML entities.
pub open spec fn xml_escaped(s: Seq<char>) -> Seq<char>
    decreases s.len(),
{
    if s.len() == 0 {
        Seq::empty()
    } else {
        xml_escaped(s.drop_last()) + xml_escape_char(s.last())
    }
}

/// `text` with `&`, `<`, `>`, `"` and `'` written as XML entities.
pub fn escape_xml(text: &str) -> (r: String)
    ensures
        r@ == xml_escaped(text@),
{
    let cs = char_vec(text);
    let mut r = String::new();
    let mut i: usize = 0;
    while i < cs.len()
        invariant
            cs@ == text@,
            i <= cs@.len(),
            r@ == xml_escaped(text@.subrange(0, i as int)),
        decreases cs@.len() - i,
    {
        let c = cs[i];
        let ghost sub = text@.subrange(0, i + 1);
        assert(sub.drop_last() =~= text@.subrange(0, i as int));
        if c == '&' {
            r.append("&amp;");
        } else if c == '<' {
            r.append("&lt;");
        } else if c == '>' {
            r.append("&gt;");
        } else if c == '"' {
            r.append("&quot;");
        } else if c == '\'' {
            r.append("&apos;");
        } else {
            let mut one: Vec<char> = Vec::new();
            one.push(c);
            let s = string_from_chars(&one);
            r.append(s.as_str());
            assert(one@ =~= seq![c]);
        }
        i += 1;
    }
    assert(text@.subrange(0, text@.len() as int) =~= text@);
    r
}

/// Where a list comes from, judged by the text that names it.
#[derive(Debug, PartialEq, Eq)]
pub enum InputSource {
    /// A glob pattern over files.
    GlobPattern,
    /// A file path, given after `file://`.
    FilePath(String),
    /// An `http://` or `https://` address.
    Remote,
    /// A file name or an inline list.
    Plain,
}

/// `s` with every leading repeat of the non-empty `p` removed.
pub open spec fn strip_repeated(s: Seq<char>, p: Seq<char>) -> Seq<char>
    decreases s.len(),
{
    if p.len() > 0 && has_prefix(s, p) {
        strip_repeated(s.subrange(p.len() as int, s.len() as int), p)
    } else {
        s
    }
}

/// `s` names files by a glob pattern: it holds `*`, `?` or `[`.
pub open spec fn is_glob(s: Seq<char>) -> bool {
    s.contains('*') || s.contains('?') || s.contains('[')
}

/// `s` is an `http://` or `https://` address.
pub open spec fn is_remote(s: Seq<char>) -> bool {
    has_prefix(s, "http://"@) || has_prefix(s, "https://"@)
}

/// The source that `input` names: a glob pattern where it holds `*`, `?`
/// or `[`; else a file path after `file://`, with every leading repeat of
/// that removed; else a remote address; else a plain input.
pub fn input_source(input: &str) -> (r: InputSource)
    ensures
        match r {
            InputSource::GlobPattern => is_glob(input@),
            InputSource::FilePath(p) => !is_glob(input@) && has_prefix(input@, "file://"@)
                && p@ == strip_repeated(input@, "file://"@),
            InputSource::Remote => !is_glob(input@) && !has_prefix(input@, "file://"@) && is_remote(input@),
            InputSource::Plain => !is_glob(input@) && !has_prefix(input@, "file://"@) && !is_remote(input@),
        },
{
    if has_char(input, '*') || has_char(input, '?') || has_char(input, '[') {
        return InputSource::GlobPattern;
    }
    if starts_with_text(input, "file://") {
        let cs = char_vec(input);
        let pfx = char_vec("file://");
        proof {
            reveal_strlit("file://");
        }
        let mut pos: usize = 0;
        assert(input@.subrange(0, input@.len() as int) =~= input@);
        while pfx.len() <= cs.len() - pos && matches_at(&cs, pos, &pfx)
            invariant
                cs@ == input@,
                pfx@ == "file://"@,
                pfx@.len() == 7,
                pos <= cs@.len(),
                strip_repeated(input@, "file://"@) == strip_repeated(input@.subrange(pos as int, input@.len() as int), "file://"@),
            decreases cs@.len() - pos,
        {
            let ghost rest = input@.subrange(pos as int, input@.len() as int);
            assert(rest.subrange(0, 7) =~= input@.subrange(pos as int, pos + 7));
            assert(rest.subrange(7, rest.len() as int) =~= input@.subrange(pos + 7, input@.len() as int));
            pos = pos + pfx.len();
        }
        proof {
            let rest = input@.subrange(pos as int, input@.len() as int);
            if pfx@.len() <= cs@.len() - pos {
                assert(rest.subrange(0, 7) =~= input@.subrange(pos as int, pos + 7));
            }
            assert(!has_prefix(rest, "file://"@));
        }
        return InputSource::FilePath(string_from(&cs, pos));
    }
    if starts_with_text(input, "http://") || starts_with_text(input, "https://") {
        return InputSource::Remote;
    }
    InputSource::Plain
}

} // verus!
