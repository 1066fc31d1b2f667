//! What is written where: the kind of an input, the format of an output and
//! the name of the file that holds it.

use crate::text::{chars_of, push_chars, same_chars, slice_chars, string_of};
use vstd::prelude::*;

verus! {

/// The formats in which a record can be written.
#[derive(Clone, Copy, Debug, PartialEq, Eq, Structural)]
pub enum OutputFormat {
    Json,
    Bson,
    Bincode,
}

/// An extension that names no format.
#[derive(Debug)]
pub struct UnknownFormat {
    pub ext: String,
}

/// What an input is taken to be.
#[derive(Clone, Copy, Debug, PartialEq, Eq, Structural)]
pub enum InputKind {
    /// A single export, named with the extension `.json`.
    File,
    /// A folder of exports, named with `/` or `\` at its end.
    Folder,
}

/// An input that is named like neither a file of traces nor a folder.
#[derive(Clone, Copy, Debug, PartialEq, Eq, Structural)]
pub struct UnknownInput {
}

/// The format that an extension names.
pub open spec fn format_of(ext: Seq<char>) -> Option<OutputFormat> {
    if ext == "bson"@ {
        Some(OutputFormat::Bson)
    } else if ext == "json"@ {
        Some(OutputFormat::Json)
    } else if ext == "bincode"@ {
        Some(OutputFormat::Bincode)
    } else {
        None
    }
}

/// Whether `s` starts with `pat`.
pub open spec fn has_prefix(s: Seq<char>, pat: Seq<char>) -> bool {
    pat.len() <= s.len() && s.take(pat.len() as int) == pat
}

/// Whether `s` ends with `pat`.
pub open spec fn has_suffix(s: Seq<char>, pat: Seq<char>) -> bool {
    pat.len() <= s.len() && s.skip(s.len() - pat.len()) == pat
}

/// `s` with every `pat` in it replaced by `with`, from left to right.
pub open spec fn replaced(s: Seq<char>, pat: Seq<char>, with: Seq<char>) -> Seq<char>
    decreases s.len(),
{
    if pat.len() == 0 || s.len() < pat.len() {
        s
    } else if has_prefix(s, pat) {
        with + replaced(s.skip(pat.len() as int), pat, with)
    } else {
        seq![s[0]] + replaced(s.drop_first(), pat, with)
    }
}

/// The name of the file of a record: the given name with `.csv` replaced
/// by a dot and the extension.
pub open spec fn stats_file_name(file_name: Seq<char>, ext: Seq<char>) -> Seq<char> {
    replaced(file_name, seq!['.', 'c', 's', 'v'], seq!['.'] + ext)
}

/// What an input is taken to be, by its name.
pub open spec fn input_kind(input: Seq<char>) -> Option<InputKind> {
    if has_suffix(input, seq!['.', 'j', 's', 'o', 'n']) {
        Some(InputKind::File)
    } else if has_suffix(input, seq!['/']) || has_suffix(input, seq!['\\']) {
        Some(InputKind::Folder)
    } else {
        None
    }
}

/// Whether `text` holds `pat` at `at`.
pub fn holds_at(text: &Vec<char>, at: usize, pat: &Vec<char>) -> (r: bool)
    requires
        at <= text.len(),
    ensures
        r == has_prefix(text@.skip(at as int), pat@),
{
    if pat.len() > text.len() - at {
        return false;
    }
    let ghost rest = text@.skip(at as int);
    let ghost head = rest.take(pat.len() as int);
    let mut i: usize = 0;
    while i < pat.len()
        invariant
            i <= pat.len(),
            at + pat.len() <= text.len(),
            rest == text@.skip(at as int),
            head == rest.take(pat.len() as int),
            forall|j: int| 0 <= j < i ==> text@[at + j] == pat@[j],
        decreases pat.len() - i,
    {
        if text[at + i] != pat[i] {
            assert(head[i as int] != pat@[i as int]);
            return false;
        }
        i += 1;
    }
    assert(head =~= pat@);
    true
}

/// Whether `text` ends with `pat`.
pub fn ends_with(text: &Vec<char>, pat: &Vec<char>) -> (r: bool)
    ensures
        r == has_suffix(text@, pat@),
{
    if pat.len() > text.len() {
        return false;
    }
    let at = text.len() - pat.len();
    let r = holds_at(text, at, pat);
    proof {
        let tail = text@.skip(at as int);
        assert(tail.take(pat.len() as int) =~= tail);
    }
    r
}

/// Replaces every `pat` in `text` by `with`.
pub fn replace_all(text: &Vec<char>, pat: &Vec<char>, with: &Vec<char>) -> (r: Vec<char>)
    ensures
        r@ == replaced(text@, pat@, with@),
{
    if pat.len() == 0 {
        return slice_chars(text, 0, text.len());
    }
    let mut out: Vec<char> = Vec::new();
    let mut i: usize = 0;
    assert(text@.skip(0) =~= text@);
    while i < text.len()
        invariant
            i <= text.len(),
            pat.len() > 0,
            out@ + replaced(text@.skip(i as int), pat@, with@) == replaced(text@, pat@, with@),
        decreases text.len() - i,
    {
        let ghost rest = text@.skip(i as int);
        let ghost done = out@;
        if holds_at(text, i, pat) {
            push_chars(&mut out, with);
            proof {
                assert(rest.skip(pat.len() as int) =~= text@.skip(i + pat.len()));
                assert(out@ + replaced(text@.skip(i + pat.len()), pat@, with@) =~= done + (with@
                    + replaced(rest.skip(pat.len() as int), pat@, with@)));
            }
            i += pat.len();
        } else {
            out.push(text[i]);
            proof {
                assert(rest.drop_first() =~= text@.skip(i + 1));
                assert(rest[0] == text@[i as int]);
                if rest.len() < pat.len() {
                    // what is left is shorter than the pattern and stays as it is
                    lemma_short_stays(rest.drop_first(), pat@, with@);
                    assert(seq![rest[0]] + rest.drop_first() =~= rest);
                }
                assert(out@ + replaced(text@.skip(i + 1), pat@, with@) =~= done + (seq![rest[0]]
                    + replaced(rest.drop_first(), pat@, with@)));
            }
            i += 1;
        }
    }
    assert(text@.skip(text.len() as int) =~= Seq::<char>::empty());
    assert(out@ + Seq::<char>::empty() =~= out@);
    out
}

proof fn lemma_short_stays(s: Seq<char>, pat: Seq<char>, with: Seq<char>)
    requires
        s.len() < pat.len(),
    ensures
        replaced(s, pat, with) == s,
{
}

/// The format that an extension names.
pub fn output_format(ext: &str) -> (r: Option<OutputFormat>)
    ensures
        r == format_of(ext@),
{
    let e = chars_of(ext);
    if same_chars(&e, &chars_of("bson")) {
        Some(OutputFormat::Bson)
    } else if same_chars(&e, &chars_of("json")) {
        Some(OutputFormat::Json)
    } else if same_chars(&e, &chars_of("bincode")) {
        Some(OutputFormat::Bincode)
    } else {
        None
    }
}

/// The file and the format in which a record is to be written; an error
/// with the extension where it names no format.
pub fn write_stats(file_name: &str, ext: &str) -> (r: Result<(String, OutputFormat), UnknownFormat>)
    ensures
        match r {
            Ok((name, format)) => format_of(ext@) == Some(format) && name@ == stats_file_name(
                file_name@,
                ext@,
            ),
            Err(e) => format_of(ext@) is None && e.ext@ == ext@,
        },
{
    match output_format(ext) {
        None => Err(UnknownFormat { ext: ext.to_owned() }),
        Some(format) => {
            let mut with: Vec<char> = Vec::new();
            with.push('.');
            crate::text::push_str_chars(&mut with, ext);
            let pat = chars_of(".csv");
            proof {
                reveal_strlit(".csv");
                assert(pat@ =~= seq!['.', 'c', 's', 'v']);
                assert(with@ =~= seq!['.'] + ext@);
            }
            let name = replace_all(&chars_of(file_name), &pat, &with);
            Ok((string_of(&name), format))
        },
    }
}

/// What an input is taken to be: a file of traces where its name ends in
/// `.json`, a folder where it ends in `/` or `\`.
pub fn process_file_or_folder(input_file: &str) -> (r: Result<InputKind, UnknownInput>)
    ensures
        match r {
            Ok(kind) => input_kind(input_file@) == Some(kind),
            Err(_) => input_kind(input_file@) is None,
        },
{
    let name = chars_of(input_file);
    let json = chars_of(".json");
    let mut slash: Vec<char> = Vec::new();
    slash.push('/');
    let mut backslash: Vec<char> = Vec::new();
    backslash.push('\\');
    proof {
        reveal_strlit(".json");
        assert(json@ =~= seq!['.', 'j', 's', 'o', 'n']);
        assert(slash@ =~= seq!['/']);
        assert(backslash@ =~= seq!['\\']);
    }
    if ends_with(&name, &json) {
        Ok(InputKind::File)
    } else if ends_with(&name, &slash) || ends_with(&name, &backslash) {
        Ok(InputKind::Folder)
    } else {
        Err(UnknownInput {  })
    }
}

} // verus!
