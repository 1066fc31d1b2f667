//! The caching label of a chain, and the files that list the expected chains
//! of an end point.

use crate::call::CallView;
use crate::chain_key::{chain_view, parse_key, CChainStatsKey, CallChain, KeyView, ParseError};
use crate::remap::keys_view;
use crate::text::{
    chars_of, join, push_str_chars, same_chars, split, split_chars, string_of, string_views, trim,
    trim_chars, views,
};
use vstd::prelude::*;

verus! {

/// The chains that are expected to start at one end point.
pub type EndPointCChain = Vec<CChainStatsKey>;

/// Whether a method is one of the four that stand for an inbound HTTP call.
pub open spec fn is_http_verb(method: Seq<char>) -> bool {
    method == "GET"@ || method == "POST"@ || method == "HEAD"@ || method == "QUERY"@
}

/// The processes of `chain` that are among `names`, in chain order, without
/// the calls whose method is an HTTP verb.
pub open spec fn cached_on_chain(names: Seq<Seq<char>>, chain: Seq<CallView>) -> Seq<Seq<char>>
    decreases chain.len(),
{
    if chain.len() == 0 {
        Seq::<Seq<char>>::empty()
    } else {
        let front = cached_on_chain(names, chain.drop_last());
        let c = chain.last();
        if !is_http_verb(c.method) && names.contains(c.process) {
            front.push(c.process)
        } else {
            front
        }
    }
}

/// The caching label of a chain: empty where no caching process is on it,
/// else the processes found, separated by `, `, in square brackets after a
/// space.
pub open spec fn caching_label(names: Seq<Seq<char>>, chain: Seq<CallView>) -> Seq<char> {
    let cached = cached_on_chain(names, chain);
    if cached.len() == 0 {
        Seq::<char>::empty()
    } else {
        seq![' ', '['] + join(cached, seq![',', ' ']) + seq![']']
    }
}

/// The name of the file that lists the expected chains of `key`.
pub open spec fn cchain_filename_text(key: Seq<char>) -> Seq<char> {
    key + seq!['.', 'c', 'c', 'h', 'a', 'i', 'n']
}

/// An end point with `/` and `\` replaced by `_`, so that it can name a file.
pub open spec fn endpoint_stem(endpoint: Seq<char>) -> Seq<char> {
    endpoint.map_values(
        |c: char|
            if c == '/' || c == '\\' {
                '_'
            } else {
                c
            },
    )
}

/// Whether a trimmed line of a chain file holds no key: it is empty or a
/// comment.
pub open spec fn is_skipped_line(t: Seq<char>) -> bool {
    t.len() == 0 || t[0] == '#'
}

/// The keys on the given lines, or the error of the first line that is
/// neither skipped nor a key.
pub open spec fn parse_lines(lines: Seq<Seq<char>>) -> Result<Seq<KeyView>, ParseError>
    decreases lines.len(),
{
    if lines.len() == 0 {
        Ok(Seq::<KeyView>::empty())
    } else {
        match parse_lines(lines.drop_last()) {
            Err(e) => Err(e),
            Ok(keys) => {
                let t = trim(lines.last());
                if is_skipped_line(t) {
                    Ok(keys)
                } else {
                    match parse_key(t) {
                        Err(e) => Err(e),
                        Ok(k) => Ok(keys.push(k)),
                    }
                }
            },
        }
    }
}

/// The keys that the text of a chain file holds, one per line.
pub open spec fn parse_cchain_text(content: Seq<char>) -> Result<Seq<KeyView>, ParseError> {
    parse_lines(split(content, '\n'))
}

proof fn lemma_parse_lines_error_stays(lines: Seq<Seq<char>>, n: int)
    requires
        0 <= n <= lines.len(),
        parse_lines(lines.take(n)) is Err,
    ensures
        parse_lines(lines) == parse_lines(lines.take(n)),
    decreases lines.len() - n,
{
    if n == lines.len() {
        assert(lines.take(n) =~= lines);
    } else {
        assert(lines.take(n + 1).drop_last() =~= lines.take(n));
        lemma_parse_lines_error_stays(lines, n + 1);
    }
}

/// Whether `name` is among `names`.
pub fn holds_name(names: &Vec<String>, name: &String) -> (r: bool)
    ensures
        r == string_views(names@).contains(name@),
{
    let mut i: usize = 0;
    while i < names.len()
        invariant
            i <= names.len(),
            forall|j: int| 0 <= j < i ==> names@[j]@ != name@,
        decreases names.len() - i,
    {
        if names[i] == *name {
            assert(string_views(names@)[i as int] == name@);
            return true;
        }
        i += 1;
    }
    assert forall|j: int| 0 <= j < string_views(names@).len() implies string_views(names@)[j]
        != name@ by {}
    false
}

/// Whether `method` is `GET`, `POST`, `HEAD` or `QUERY`.
pub fn is_http_verb_name(method: &String) -> (r: bool)
    ensures
        r == is_http_verb(method@),
{
    let m = chars_of(method.as_str());
    same_chars(&m, &chars_of("GET")) || same_chars(&m, &chars_of("POST")) || same_chars(
        &m,
        &chars_of("HEAD"),
    ) || same_chars(&m, &chars_of("QUERY"))
}

/// The label that tells which caching processes are on a chain.
pub fn caching_process_label(caching_process: &Vec<String>, call_chain: &CallChain) -> (r: String)
    ensures
        r@ == caching_label(string_views(caching_process@), chain_view(call_chain@)),
{
    let ghost names = string_views(caching_process@);
    let ghost chain = chain_view(call_chain@);
    let mut buf: Vec<char> = Vec::new();
    let mut found: usize = 0;
    let mut i: usize = 0;
    assert(chain.take(0) =~= Seq::<CallView>::empty());
    while i < call_chain.len()
        invariant
            i <= call_chain.len(),
            names == string_views(caching_process@),
            chain == chain_view(call_chain@),
            found == cached_on_chain(names, chain.take(i as int)).len(),
            found <= i,
            buf@ == join(cached_on_chain(names, chain.take(i as int)), seq![',', ' ']),
        decreases call_chain.len() - i,
    {
        proof {
            assert(chain.take(i + 1).drop_last() =~= chain.take(i as int));
            assert(chain.take(i + 1).last() == call_chain@[i as int]@);
        }
        let call = &call_chain[i];
        if !is_http_verb_name(&call.method) && holds_name(caching_process, &call.process) {
            let ghost before = cached_on_chain(names, chain.take(i as int));
            let ghost after = cached_on_chain(names, chain.take(i + 1));
            assert(after == before.push(call.process@));
            assert(after.drop_last() =~= before);
            if found > 0 {
                buf.push(',');
                buf.push(' ');
            }
            let ghost joined = buf@;
            push_str_chars(&mut buf, call.process.as_str());
            proof {
                if found > 0 {
                    assert(joined =~= join(before, seq![',', ' ']) + seq![',', ' ']);
                } else {
                    assert(buf@ =~= call.process@);
                }
            }
            found += 1;
        }
        i += 1;
    }
    assert(chain.take(call_chain.len() as int) =~= chain);
    if found == 0 {
        return String::new();
    }
    let mut label: Vec<char> = Vec::new();
    label.push(' ');
    label.push('[');
    crate::text::push_chars(&mut label, &buf);
    label.push(']');
    assert(label@ =~= seq![' ', '['] + buf@ + seq![']']);
    string_of(&label)
}

/// The name, without a path, of the file that lists the expected chains of
/// `key`.
pub fn cchain_filename(key: &str) -> (r: String)
    ensures
        r@ == cchain_filename_text(key@),
{
    let mut buf = chars_of(key);
    push_str_chars(&mut buf, ".cchain");
    proof {
        reveal_strlit(".cchain");
        assert(".cchain"@ =~= seq!['.', 'c', 'c', 'h', 'a', 'i', 'n']);
    }
    string_of(&buf)
}

/// The form of an end point that can name a file.
pub fn endpoint_file_stem(endpoint: &str) -> (r: String)
    ensures
        r@ == endpoint_stem(endpoint@),
{
    let src = chars_of(endpoint);
    let mut buf: Vec<char> = Vec::new();
    let mut i: usize = 0;
    while i < src.len()
        invariant
            i <= src.len(),
            src@ == endpoint@,
            buf@ == endpoint_stem(endpoint@).take(i as int),
        decreases src.len() - i,
    {
        let c = src[i];
        if c == '/' || c == '\\' {
            buf.push('_');
        } else {
            buf.push(c);
        }
        assert(buf@ =~= endpoint_stem(endpoint@).take(i + 1));
        i += 1;
    }
    assert(endpoint_stem(endpoint@).take(src.len() as int) =~= endpoint_stem(endpoint@));
    string_of(&buf)
}

/// Reads the text of a chain file: one key per line, empty lines and lines
/// that start with `#` left out.
pub fn read_cchain_file(content: &str) -> (r: Result<EndPointCChain, ParseError>)
    ensures
        match r {
            Ok(keys) => parse_cchain_text(content@) == Ok::<Seq<KeyView>, ParseError>(
                keys_view(keys@),
            ),
            Err(e) => parse_cchain_text(content@) == Err::<Seq<KeyView>, ParseError>(e),
        },
{
    let text = chars_of(content);
    let lines = split_chars(&text, '\n');
    let ghost all = views(lines@);
    let mut keys: Vec<CChainStatsKey> = Vec::new();
    let mut i: usize = 0;
    assert(all.take(0) =~= Seq::<Seq<char>>::empty());
    assert(keys_view(keys@) =~= Seq::<KeyView>::empty());
    while i < lines.len()
        invariant
            i <= lines.len(),
            all == views(lines@),
            all == split(content@, '\n'),
            parse_lines(all.take(i as int)) == Ok::<Seq<KeyView>, ParseError>(keys_view(keys@)),
        decreases lines.len() - i,
    {
        proof {
            assert(all.take(i + 1).drop_last() =~= all.take(i as int));
            assert(all.take(i + 1).last() == lines@[i as int]@);
        }
        let t = trim_chars(&lines[i]);
        if t.len() != 0 && t[0] != '#' {
            match CChainStatsKey::parse_chars(&t) {
                Err(e) => {
                    proof {
                        assert(trim(all.take(i + 1).last()) == t@);
                        assert(!is_skipped_line(t@));
                        assert(parse_lines(all.take(i + 1)) == Err::<Seq<KeyView>, ParseError>(e));
                        lemma_parse_lines_error_stays(all, i + 1);
                    }
                    return Err(e);
                },
                Ok(k) => {
                    let ghost before = keys@;
                    keys.push(k);
                    assert(keys_view(keys@) =~= keys_view(before).push(k@));
                },
            }
        }
        i += 1;
    }
    assert(all.take(lines.len() as int) =~= all);
    Ok(keys)
}

} // verus!
