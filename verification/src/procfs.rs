//! What is read out of a process's `/proc` files: the NUL-separated parts of its command
//! line and environment, and what they say.
use vstd::prelude::*;
use crate::bytes::{nul_index, nul_offset};
use crate::text::{
    chars_of, decode_utf8_text, find_char, find_char_exec, lossy_string, push_char, push_slice,
    starts_with, starts_with_exec, string_of, strings_view, utf8_decode, utf8_lossy,
};

verus! {

/// The first NUL lies within `s` and holds a zero byte.
pub proof fn lemma_nul_bound(s: Seq<u8>)
    ensures
        nul_index(s) <= s.len(),
        nul_index(s) < s.len() ==> s[nul_index(s) as int] == 0,
    decreases s.len(),
{
    if s.len() > 0 && s[0] != 0 {
        lemma_nul_bound(s.drop_first());
        if nul_index(s.drop_first()) < s.len() - 1 {
            assert(s.drop_first()[nul_index(s.drop_first()) as int] == s[nul_index(s) as int]);
        }
    }
}

/// The NUL-separated parts of `s` from `pos` on, as `split(|&b| b == 0)` yields them: the
/// bytes after the last NUL form a part too, empty or not.
pub open spec fn parts_from(s: Seq<u8>, pos: int) -> Seq<Seq<u8>>
    decreases s.len() + 1 - pos,
{
    if pos < 0 || pos > s.len() {
        Seq::empty()
    } else {
        let rest = s.skip(pos);
        proof {
            lemma_nul_bound(rest);
        }
        seq![rest.take(nul_index(rest) as int)] + parts_from(s, pos + nul_index(rest) + 1)
    }
}

/// All NUL-separated parts of `s`.
pub open spec fn nul_parts(s: Seq<u8>) -> Seq<Seq<u8>> {
    parts_from(s, 0)
}

/// The part that starts at `pos`: its end, and whether it is the last.
pub fn part_end(b: &[u8], pos: usize) -> (r: (usize, bool))
    requires
        pos <= b@.len(),
    ensures
        pos <= r.0 <= b@.len(),
        r.1 == (r.0 == b@.len()),
        parts_from(b@, pos as int) == seq![b@.subrange(pos as int, r.0 as int)] + parts_from(
            b@,
            r.0 + 1,
        ),
{
    let n = nul_offset(b, pos, b.len());
    proof {
        let rest = b@.skip(pos as int);
        assert(rest =~= b@.subrange(pos as int, b@.len() as int));
        assert(rest.take(n as int) =~= b@.subrange(pos as int, pos + n));
    }
    (pos + n, pos + n == b.len())
}

/// The value of `key` in one environment entry `KEY=value`, if the entry is for `key`
/// (`strip_prefix("KEY=")`).
pub open spec fn entry_value(entry: Seq<char>, key: Seq<char>) -> Option<Seq<char>> {
    if starts_with(entry, key.push('=')) {
        Some(entry.skip(key.len() as int + 1))
    } else {
        None
    }
}

/// The value an environment entry gives `key`, if it is an entry for `key`.
pub fn env_entry(entry: &str, key: &str) -> (r: Option<String>)
    ensures
        match r {
            Some(v) => entry_value(entry@, key@) == Some(v@),
            None => entry_value(entry@, key@) is None,
        },
{
    let e = chars_of(entry);
    let mut k = chars_of(key);
    k.push('=');
    assert(k@ == key@.push('='));
    if starts_with_exec(&e, &k) {
        let v = string_of(&e, k.len(), e.len());
        assert(v@ =~= e@.skip(key@.len() as int + 1));
        Some(v)
    } else {
        None
    }
}

/// The value of `key` in the first of `parts` that is valid UTF-8 and an entry for `key`.
pub open spec fn env_lookup(parts: Seq<Seq<u8>>, key: Seq<char>) -> Option<Seq<char>>
    decreases parts.len(),
{
    if parts.len() == 0 {
        None
    } else {
        let here = match utf8_decode(parts[0]) {
            Some(t) => entry_value(t, key),
            None => None,
        };
        match here {
            Some(v) => Some(v),
            None => env_lookup(parts.drop_first(), key),
        }
    }
}

/// The value of the variable `key` in a raw environment block (`/proc/PID/environ`).
pub fn env_value(raw: &[u8], key: &str) -> (r: Option<String>)
    ensures
        match r {
            Some(v) => env_lookup(nul_parts(raw@), key@) == Some(v@),
            None => env_lookup(nul_parts(raw@), key@) is None,
        },
{
    let len = raw.len();
    let mut pos: usize = 0;
    loop
        invariant
            pos <= raw@.len(),
            len == raw@.len(),
            env_lookup(nul_parts(raw@), key@) == env_lookup(parts_from(raw@, pos as int), key@),
        decreases raw@.len() - pos,
    {
        let (end, last) = part_end(raw, pos);
        let ghost part = raw@.subrange(pos as int, end as int);
        assert((seq![part] + parts_from(raw@, end + 1))[0] == part);
        assert((seq![part] + parts_from(raw@, end + 1)).drop_first() =~= parts_from(raw@, end + 1));
        if let Some(text) = decode_utf8_text(&raw[pos..end]) {
            if let Some(v) = env_entry(text.as_str(), key) {
                return Some(v);
            }
        }
        if last {
            assert(parts_from(raw@, end + 1) =~= Seq::<Seq<u8>>::empty());
            assert(env_lookup(parts_from(raw@, end + 1), key@) is None);
            return None;
        }
        assert(end < len);
        pos = end + 1;
    }
}

/// The `(name, value)` pairs of an environment: each non-empty, valid UTF-8 part that holds
/// an `=`, split at its first `=`.
pub open spec fn env_pairs(parts: Seq<Seq<u8>>) -> Seq<(Seq<char>, Seq<char>)>
    decreases parts.len(),
{
    if parts.len() == 0 {
        Seq::empty()
    } else {
        let rest = env_pairs(parts.drop_first());
        if parts[0].len() == 0 {
            rest
        } else {
            match utf8_decode(parts[0]) {
                Some(t) => match find_char(t, '=', 0) {
                    Some(i) => seq![(t.take(i), t.skip(i + 1))] + rest,
                    None => rest,
                },
                None => rest,
            }
        }
    }
}

/// The views of a list of string pairs.
pub open spec fn pairs_view(v: Seq<(String, String)>) -> Seq<(Seq<char>, Seq<char>)> {
    v.map_values(|p: (String, String)| (p.0@, p.1@))
}

/// The environment of a process from its raw block, or `None` when it yields no pair.
pub fn environ_pairs(raw: &[u8]) -> (r: Option<Vec<(String, String)>>)
    ensures
        match r {
            Some(v) => pairs_view(v@) == env_pairs(nul_parts(raw@)) && v@.len() > 0,
            None => env_pairs(nul_parts(raw@)).len() == 0,
        },
{
    let mut out: Vec<(String, String)> = Vec::new();
    let len = raw.len();
    let mut pos: usize = 0;
    loop
        invariant
            pos <= raw@.len(),
            len == raw@.len(),
            env_pairs(nul_parts(raw@)) == pairs_view(out@) + env_pairs(parts_from(raw@, pos as int)),
        decreases raw@.len() - pos,
    {
        let (end, last) = part_end(raw, pos);
        let ghost part = raw@.subrange(pos as int, end as int);
        let ghost before = pairs_view(out@);
        assert((seq![part] + parts_from(raw@, end + 1))[0] == part);
        assert((seq![part] + parts_from(raw@, end + 1)).drop_first() =~= parts_from(raw@, end + 1));
        if end > pos {
            if let Some(text) = decode_utf8_text(&raw[pos..end]) {
                let t = chars_of(text.as_str());
                let tl = t.len();
                if let Some(i) = find_char_exec(&t, '=', 0) {
                    proof {
                        crate::text::lemma_find_char(t@, '=', 0);
                    }
                    let name = string_of(&t, 0, i);
                    let value = string_of(&t, i + 1, tl);
                    assert(name@ =~= t@.take(i as int));
                    assert(value@ =~= t@.skip(i + 1));
                    out.push((name, value));
                    assert(pairs_view(out@) =~= before.push((t@.take(i as int), t@.skip(i + 1))));
                    assert(before.push((t@.take(i as int), t@.skip(i + 1))) + env_pairs(
                        parts_from(raw@, end + 1),
                    ) =~= before + (seq![(t@.take(i as int), t@.skip(i + 1))] + env_pairs(
                        parts_from(raw@, end + 1),
                    )));
                }
            }
        }
        if last {
            assert(parts_from(raw@, end + 1) =~= Seq::<Seq<u8>>::empty());
            assert(pairs_view(out@) + Seq::<(Seq<char>, Seq<char>)>::empty() =~= pairs_view(out@));
            if out.len() == 0 {
                return None;
            }
            return Some(out);
        }
        assert(end < len);
        pos = end + 1;
    }
}

/// The words of a command line: each non-empty part, decoded with invalid UTF-8 replaced.
pub open spec fn cmdline_words_of(parts: Seq<Seq<u8>>) -> Seq<Seq<char>>
    decreases parts.len(),
{
    if parts.len() == 0 {
        Seq::empty()
    } else {
        let rest = cmdline_words_of(parts.drop_first());
        if parts[0].len() == 0 {
            rest
        } else {
            seq![utf8_lossy(parts[0])] + rest
        }
    }
}

/// The words of a raw command line (`/proc/PID/cmdline`).
pub fn cmdline_words(raw: &[u8]) -> (r: Vec<String>)
    ensures
        strings_view(r@) == cmdline_words_of(nul_parts(raw@)),
{
    let mut out: Vec<String> = Vec::new();
    let len = raw.len();
    let mut pos: usize = 0;
    loop
        invariant
            pos <= raw@.len(),
            len == raw@.len(),
            cmdline_words_of(nul_parts(raw@)) == strings_view(out@) + cmdline_words_of(
                parts_from(raw@, pos as int),
            ),
        decreases raw@.len() - pos,
    {
        let (end, last) = part_end(raw, pos);
        let ghost part = raw@.subrange(pos as int, end as int);
        let ghost before = strings_view(out@);
        assert((seq![part] + parts_from(raw@, end + 1))[0] == part);
        assert((seq![part] + parts_from(raw@, end + 1)).drop_first() =~= parts_from(raw@, end + 1));
        if end > pos {
            let w = lossy_string(&raw[pos..end]);
            out.push(w);
            assert(strings_view(out@) =~= before.push(w@));
            assert(before.push(w@) + cmdline_words_of(parts_from(raw@, end + 1)) =~= before + (seq![
                w@,
            ] + cmdline_words_of(parts_from(raw@, end + 1))));
        }
        if last {
            assert(parts_from(raw@, end + 1) =~= Seq::<Seq<u8>>::empty());
            assert(strings_view(out@) + Seq::<Seq<char>>::empty() =~= strings_view(out@));
            return out;
        }
        assert(end < len);
        pos = end + 1;
    }
}

/// Words joined with single spaces.
pub open spec fn joined(ws: Seq<Seq<char>>) -> Seq<char>
    decreases ws.len(),
{
    if ws.len() == 0 {
        Seq::empty()
    } else if ws.len() == 1 {
        ws[0]
    } else {
        joined(ws.drop_last()) + seq![' '] + ws.last()
    }
}

/// A command line as one line of text: its words joined with spaces, or `None` when the raw
/// block is empty or the text would be.
pub open spec fn cmdline_line(raw: Seq<u8>) -> Option<Seq<char>> {
    let t = joined(cmdline_words_of(nul_parts(raw)));
    if raw.len() == 0 || t.len() == 0 {
        None
    } else {
        Some(t)
    }
}

/// The command line of a process as one line of text.
pub fn cmdline_text(raw: &[u8]) -> (r: Option<String>)
    ensures
        match r {
            Some(t) => cmdline_line(raw@) == Some(t@),
            None => cmdline_line(raw@) is None,
        },
{
    if raw.len() == 0 {
        return None;
    }
    let words = cmdline_words(raw);
    let ghost ws = strings_view(words@);
    let mut s = String::new();
    let mut i: usize = 0;
    while i < words.len()
        invariant
            i <= words@.len(),
            ws == strings_view(words@),
            s@ == joined(ws.take(i as int)),
        decreases words@.len() - i,
    {
        let w = chars_of(words[i].as_str());
        assert(ws[i as int] == words@[i as int]@);
        assert(ws.take(i + 1).drop_last() =~= ws.take(i as int));
        if i > 0 {
            push_char(&mut s, ' ');
        }
        push_slice(&mut s, &w, 0, w.len());
        proof {
            assert(w@.subrange(0, w@.len() as int) =~= w@);
            if i == 0 {
                assert(ws.take(1)[0] == ws[0]);
                assert(s@ =~= joined(ws.take(1)));
            } else {
                assert(s@ =~= joined(ws.take(i + 1)));
            }
        }
        i = i + 1;
    }
    assert(ws.take(ws.len() as int) =~= ws);
    if s.as_str().is_empty() {
        None
    } else {
        Some(s)
    }
}

} // verus!
