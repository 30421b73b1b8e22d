//! Editing Steam's `localconfig.vdf` so that a game starts with a given launch option.
use vstd::prelude::*;
use crate::text::{
    text_result,
    chars_of, find_char, find_char_exec, find_exec, find_from, lemma_find_char, lemma_find_from,
    push_char, push_slice, push_str,
};

verus! {

/// `"key"`: a key as it is written, quoted, in a VDF file.
pub open spec fn quoted(key: Seq<char>) -> Seq<char> {
    seq!['"'] + key + seq!['"']
}

/// The position of `"key"` in `content` at or after `from`.
pub open spec fn quoted_key_at(content: Seq<char>, key: Seq<char>, from: int) -> Option<int> {
    find_from(content, quoted(key), from)
}

fn quoted_chars(key: &str) -> (v: Vec<char>)
    ensures
        v@ == quoted(key@),
{
    let mut v: Vec<char> = Vec::new();
    v.push('"');
    let k = chars_of(key);
    let mut i: usize = 0;
    while i < k.len()
        invariant
            i <= k@.len(),
            v@ == seq!['"'] + k@.take(i as int),
        decreases k@.len() - i,
    {
        v.push(k[i]);
        assert(seq!['"'] + k@.take(i + 1) =~= (seq!['"'] + k@.take(i as int)).push(k@[i as int]));
        i = i + 1;
    }
    v.push('"');
    assert(k@.take(k@.len() as int) =~= k@);
    assert(seq!['"'] + k@ + seq!['"'] =~= (seq!['"'] + k@).push('"'));
    v
}

/// Finds `"key"` in `content[from..to]`, giving its position in `content`.
fn find_quoted_key(content: &[char], key: &Vec<char>, from: usize, to: usize) -> (r: Option<usize>)
    requires
        from <= to <= content@.len(),
    ensures
        match r {
            Some(i) => find_from(content@.subrange(from as int, to as int), key@, 0) == Some(
                i - from,
            ) && from <= i,
            None => find_from(content@.subrange(from as int, to as int), key@, 0) is None,
        },
{
    let window = &content[from..to];
    match find_exec(window, key, 0) {
        Some(i) => {
            proof {
                lemma_find_from(window@, key@, 0);
            }
            Some(from + i)
        },
        None => None,
    }
}

/// Scans for the `}` that closes the block open at depth `depth`, skipping quoted strings
/// (with `\` escapes inside them).
pub open spec fn brace_scan(s: Seq<char>, i: int, depth: int, in_str: bool, esc: bool) -> Option<int>
    decreases s.len() - i,
{
    if i < 0 || i >= s.len() {
        None
    } else {
        let c = s[i];
        if in_str {
            if esc {
                brace_scan(s, i + 1, depth, true, false)
            } else if c == '\\' {
                brace_scan(s, i + 1, depth, true, true)
            } else if c == '"' {
                brace_scan(s, i + 1, depth, false, false)
            } else {
                brace_scan(s, i + 1, depth, true, false)
            }
        } else if c == '"' {
            brace_scan(s, i + 1, depth, true, esc)
        } else if c == '{' {
            brace_scan(s, i + 1, depth + 1, false, esc)
        } else if c == '}' {
            if depth - 1 == 0 {
                Some(i)
            } else {
                brace_scan(s, i + 1, depth - 1, false, esc)
            }
        } else {
            brace_scan(s, i + 1, depth, false, esc)
        }
    }
}

/// The `}` matching the block that opens at `open`.
pub open spec fn matching_brace_at(s: Seq<char>, open: int) -> Option<int> {
    brace_scan(s, open, 0, false, false)
}

/// Finds the `}` matching the block that opens at `open`.
fn matching_brace(content: &[char], open: usize) -> (r: Option<usize>)
    ensures
        match r {
            Some(i) => matching_brace_at(content@, open as int) == Some(i as int) && open <= i
                < content@.len(),
            None => matching_brace_at(content@, open as int) is None,
        },
{
    let mut depth: i128 = 0;
    let mut in_str = false;
    let mut esc = false;
    let mut i = open;
    while i < content.len()
        invariant
            open <= i,
            -(i - open) <= depth <= i - open,
            i <= usize::MAX,
            matching_brace_at(content@, open as int) == brace_scan(content@, i as int, depth as int, in_str, esc),
        decreases content@.len() - i,
    {
        let c = content[i];
        if in_str {
            if esc {
                esc = false;
            } else if c == '\\' {
                esc = true;
            } else if c == '"' {
                in_str = false;
            }
        } else {
            if c == '"' {
                in_str = true;
            } else if c == '{' {
                depth = depth + 1;
            } else if c == '}' {
                depth = depth - 1;
                if depth == 0 {
                    return Some(i);
                }
            }
        }
        i = i + 1;
    }
    None
}

/// Scans for the `"` that ends a string, skipping `\`-escaped characters.
pub open spec fn string_end_scan(s: Seq<char>, i: int, esc: bool) -> Option<int>
    decreases s.len() - i,
{
    if i < 0 || i >= s.len() {
        None
    } else if esc {
        string_end_scan(s, i + 1, false)
    } else if s[i] == '\\' {
        string_end_scan(s, i + 1, true)
    } else if s[i] == '"' {
        Some(i)
    } else {
        string_end_scan(s, i + 1, false)
    }
}

/// Finds the unescaped `"` that ends the string whose text starts at `start`.
fn find_string_end(content: &[char], start: usize) -> (r: Option<usize>)
    ensures
        match r {
            Some(i) => string_end_scan(content@, start as int, false) == Some(i as int) && start <= i
                < content@.len(),
            None => string_end_scan(content@, start as int, false) is None,
        },
{
    let mut esc = false;
    let mut i = start;
    while i < content.len()
        invariant
            start <= i,
            string_end_scan(content@, start as int, false) == string_end_scan(content@, i as int, esc),
        decreases content@.len() - i,
    {
        let c = content[i];
        if esc {
            esc = false;
        } else if c == '\\' {
            esc = true;
        } else if c == '"' {
            return Some(i);
        }
        i = i + 1;
    }
    None
}

/// How one character is written inside a VDF string.
pub open spec fn escape_char(c: char) -> Seq<char> {
    if c == '\\' {
        seq!['\\', '\\']
    } else if c == '"' {
        seq!['\\', '"']
    } else {
        seq![c]
    }
}

/// `s` written as the contents of a VDF string: `\` doubled and `"` escaped.
pub open spec fn escape_vdf_text(s: Seq<char>) -> Seq<char>
    decreases s.len(),
{
    if s.len() == 0 {
        Seq::empty()
    } else {
        escape_vdf_text(s.drop_last()) + escape_char(s.last())
    }
}

/// Escapes `s` for use inside a VDF string.
fn escape_vdf(s: &str) -> (r: String)
    ensures
        r@ == escape_vdf_text(s@),
{
    let v = chars_of(s);
    let mut out = String::new();
    let mut i: usize = 0;
    while i < v.len()
        invariant
            i <= v@.len(),
            out@ == escape_vdf_text(v@.take(i as int)),
        decreases v@.len() - i,
    {
        let c = v[i];
        let ghost before = out@;
        if c == '\\' {
            push_char(&mut out, '\\');
            push_char(&mut out, '\\');
        } else if c == '"' {
            push_char(&mut out, '\\');
            push_char(&mut out, '"');
        } else {
            push_char(&mut out, c);
        }
        assert(v@.take(i + 1).drop_last() =~= v@.take(i as int));
        assert(out@ =~= before + escape_char(c));
        i = i + 1;
    }
    assert(v@.take(v@.len() as int) =~= v@);
    out
}

/// Why `localconfig.vdf` could not be edited.
pub enum VdfFault {
    NoApps,
    MalformedApps,
    UnbalancedApps,
    MalformedApp,
    UnbalancedApp,
    MalformedLaunchOptions,
    MalformedValue,
}

/// The message given for each fault.
pub open spec fn vdf_fault_text(f: VdfFault) -> Seq<char> {
    match f {
        VdfFault::NoApps => "no \"apps\" section in localconfig"@,
        VdfFault::MalformedApps => "malformed apps"@,
        VdfFault::UnbalancedApps => "unbalanced apps section"@,
        VdfFault::MalformedApp => "malformed app block"@,
        VdfFault::UnbalancedApp => "unbalanced app block"@,
        VdfFault::MalformedLaunchOptions => "malformed LaunchOptions"@,
        VdfFault::MalformedValue => "malformed value"@,
    }
}

/// The `LaunchOptions` entry inserted into an existing app block.
pub open spec fn launch_options_entry(esc: Seq<char>) -> Seq<char> {
    "\n\t\t\t\t\t\t\"LaunchOptions\"\t\t\""@ + esc + "\""@
}

/// The app block inserted into the `apps` section when the app has none.
pub open spec fn app_block(app_id: Seq<char>, esc: Seq<char>) -> Seq<char> {
    "\n\t\t\t\t\t\""@ + app_id + "\"\n\t\t\t\t\t{\n\t\t\t\t\t\t\"LaunchOptions\"\t\t\""@ + esc
        + "\"\n\t\t\t\t\t}"@
}

/// `c` with `ins` inserted at position `at`.
pub open spec fn insert_at(c: Seq<char>, at: int, ins: Seq<char>) -> Seq<char> {
    c.take(at) + ins + c.skip(at)
}

/// The new text of `localconfig.vdf` `c` once app `app_id` has the launch option `option`:
/// an existing `LaunchOptions` value of the app is replaced, else the entry is added to
/// the app's block, else a block for the app is added to the `apps` section.
pub open spec fn set_launch_text(c: Seq<char>, app_id: Seq<char>, option: Seq<char>) -> Result<Seq<char>, VdfFault> {
    let apps_key = match quoted_key_at(c, "apps"@, 0) {
        Some(k) => Some(k),
        None => quoted_key_at(c, "Apps"@, 0),
    };
    match apps_key {
        None => Err(VdfFault::NoApps),
        Some(ak) => match find_char(c, '{', ak) {
            None => Err(VdfFault::MalformedApps),
            Some(ao) => match matching_brace_at(c, ao) {
                None => Err(VdfFault::UnbalancedApps),
                Some(ac) => {
                    let esc = escape_vdf_text(option);
                    match find_from(c.subrange(ao, ac), quoted(app_id), 0) {
                        None => Ok(insert_at(c, ao + 1, app_block(app_id, esc))),
                        Some(r1) => {
                            let app_key = ao + r1;
                            match find_char(c.subrange(app_key, ac), '{', 0) {
                                None => Err(VdfFault::MalformedApp),
                                Some(r2) => {
                                    let ap = app_key + r2;
                                    match matching_brace_at(c, ap) {
                                        None => Err(VdfFault::UnbalancedApp),
                                        Some(apc) => match find_from(
                                            c.subrange(ap, apc),
                                            quoted("LaunchOptions"@),
                                            0,
                                        ) {
                                            None => Ok(
                                                insert_at(c, ap + 1, launch_options_entry(esc)),
                                            ),
                                            Some(r3) => {
                                                let after = ap + r3 + quoted(
                                                    "LaunchOptions"@,
                                                ).len();
                                                match find_char(c.subrange(after, apc), '"', 0) {
                                                    None => Err(VdfFault::MalformedLaunchOptions),
                                                    Some(r4) => {
                                                        let vo = after + r4;
                                                        match string_end_scan(c, vo + 1, false) {
                                                            None => Err(VdfFault::MalformedValue),
                                                            Some(vc) => Ok(
                                                                c.take(vo + 1) + esc + c.skip(vc),
                                                            ),
                                                        }
                                                    },
                                                }
                                            },
                                        },
                                    }
                                },
                            }
                        },
                    }
                },
            },
        },
    }
}

/// `set_launch_text` with the fault turned into its message.
pub open spec fn set_launch_result(c: Seq<char>, app_id: Seq<char>, option: Seq<char>) -> Result<Seq<char>, Seq<char>> {
    match set_launch_text(c, app_id, option) {
        Ok(t) => Ok(t),
        Err(f) => Err(vdf_fault_text(f)),
    }
}

/// Finds `c` in `v[from..to]`, giving its position in `v`.
fn find_char_in(v: &[char], c: char, from: usize, to: usize) -> (r: Option<usize>)
    requires
        from <= to <= v@.len(),
    ensures
        match r {
            Some(i) => find_char(v@.subrange(from as int, to as int), c, 0) == Some(i - from) && from
                <= i < to,
            None => find_char(v@.subrange(from as int, to as int), c, 0) is None,
        },
{
    let w = &v[from..to];
    match find_char_exec(w, c, 0) {
        Some(i) => {
            proof {
                lemma_find_char(w@, c, 0);
            }
            Some(from + i)
        },
        None => None,
    }
}

/// `c[..at] + ins + c[at..]` as a `String`.
fn insert_text(v: &[char], at: usize, ins: &String) -> (r: String)
    requires
        at <= v@.len(),
    ensures
        r@ == insert_at(v@, at as int, ins@),
{
    let mut out = String::new();
    push_slice(&mut out, v, 0, at);
    push_str(&mut out, ins.as_str());
    push_slice(&mut out, v, at, v.len());
    assert(out@ =~= insert_at(v@, at as int, ins@));
    out
}

/// Sets the launch option of app `app_id` to `option` in the text of `localconfig.vdf`.
#[verifier::rlimit(80)]
pub fn set_launch_in_vdf(content: &str, app_id: &str, option: &str) -> (r: Result<String, String>)
    ensures
        text_result(r) == set_launch_result(content@, app_id@, option@),
{
    let c = chars_of(content);
    let apps_key = match find_quoted_key(&c, &quoted_chars("apps"), 0, c.len()) {
        Some(k) => Some(k),
        None => find_quoted_key(&c, &quoted_chars("Apps"), 0, c.len()),
    };
    assert(c@.subrange(0, c@.len() as int) =~= c@);
    let ak = match apps_key {
        None => {
            return Err(String::from_str("no \"apps\" section in localconfig"));
        },
        Some(k) => k,
    };
    let ao = match find_char_exec(&c, '{', ak) {
        None => {
            return Err(String::from_str("malformed apps"));
        },
        Some(i) => i,
    };
    proof {
        lemma_find_char(c@, '{', ak as int);
    }
    let ac = match matching_brace(&c, ao) {
        None => {
            return Err(String::from_str("unbalanced apps section"));
        },
        Some(i) => i,
    };
    let esc = escape_vdf(option);
    let app_needle = quoted_chars(app_id);
    let app_key = match find_quoted_key(&c, &app_needle, ao, ac) {
        None => {
            let mut ins = String::new();
            push_str(&mut ins, "\n\t\t\t\t\t\"");
            push_str(&mut ins, app_id);
            push_str(&mut ins, "\"\n\t\t\t\t\t{\n\t\t\t\t\t\t\"LaunchOptions\"\t\t\"");
            push_str(&mut ins, esc.as_str());
            push_str(&mut ins, "\"\n\t\t\t\t\t}");
            assert(ins@ =~= app_block(app_id@, esc@));
            return Ok(insert_text(&c, ao + 1, &ins));
        },
        Some(k) => k,
    };
    proof {
        lemma_find_from(c@.subrange(ao as int, ac as int), app_needle@, 0);
    }
    let ap = match find_char_in(&c, '{', app_key, ac) {
        None => {
            return Err(String::from_str("malformed app block"));
        },
        Some(i) => i,
    };
    let apc = match matching_brace(&c, ap) {
        None => {
            return Err(String::from_str("unbalanced app block"));
        },
        Some(i) => i,
    };
    let lo_needle = quoted_chars("LaunchOptions");
    let lo = match find_quoted_key(&c, &lo_needle, ap, apc) {
        None => {
            let mut ins = String::new();
            push_str(&mut ins, "\n\t\t\t\t\t\t\"LaunchOptions\"\t\t\"");
            push_str(&mut ins, esc.as_str());
            push_str(&mut ins, "\"");
            assert(ins@ =~= launch_options_entry(esc@));
            return Ok(insert_text(&c, ap + 1, &ins));
        },
        Some(k) => k,
    };
    proof {
        lemma_find_from(c@.subrange(ap as int, apc as int), lo_needle@, 0);
    }
    let after = lo + lo_needle.len();
    let vo = match find_char_in(&c, '"', after, apc) {
        None => {
            return Err(String::from_str("malformed LaunchOptions"));
        },
        Some(i) => i,
    };
    let vc = match find_string_end(&c, vo + 1) {
        None => {
            return Err(String::from_str("malformed value"));
        },
        Some(i) => i,
    };
    let mut out = String::new();
    push_slice(&mut out, &c, 0, vo + 1);
    push_str(&mut out, esc.as_str());
    push_slice(&mut out, &c, vc, c.len());
    assert(out@ =~= c@.take(vo + 1) + esc@ + c@.skip(vc as int));
    Ok(out)
}


proof fn lemma_brace_scan_bound(s: Seq<char>, i: int, depth: int, in_str: bool, esc: bool)
    ensures
        brace_scan(s, i, depth, in_str, esc) matches Some(r) ==> i <= r < s.len(),
    decreases s.len() - i,
{
    if 0 <= i < s.len() {
        lemma_brace_scan_bound(s, i + 1, depth, true, false);
        lemma_brace_scan_bound(s, i + 1, depth, true, true);
        lemma_brace_scan_bound(s, i + 1, depth, false, false);
        lemma_brace_scan_bound(s, i + 1, depth, true, esc);
        lemma_brace_scan_bound(s, i + 1, depth + 1, false, esc);
        lemma_brace_scan_bound(s, i + 1, depth - 1, false, esc);
        lemma_brace_scan_bound(s, i + 1, depth, false, esc);
    }
}

proof fn lemma_string_end_bound(s: Seq<char>, i: int, esc: bool)
    ensures
        string_end_scan(s, i, esc) matches Some(r) ==> i <= r < s.len(),
    decreases s.len() - i,
{
    if 0 <= i < s.len() {
        lemma_string_end_bound(s, i + 1, false);
        lemma_string_end_bound(s, i + 1, true);
    }
}

/// Setting a launch option is a targeted edit: the new text is the old one with a single
/// stretch, after the opening of the `apps` section, replaced by text that holds the
/// escaped option; everything before and after that stretch is kept as it was.
pub proof fn lemma_targeted_edit(c: Seq<char>, app_id: Seq<char>, option: Seq<char>)
    ensures
        set_launch_text(c, app_id, option) matches Ok(t) ==> exists|a: int, b: int, m: Seq<char>|
            0 < a <= b <= c.len() && t == c.take(a) + m + c.skip(b) && crate::text::contains(
                m,
                escape_vdf_text(option),
            ),
{
    let esc = escape_vdf_text(option);
    let apps_key = match quoted_key_at(c, "apps"@, 0) {
        Some(k) => Some(k),
        None => quoted_key_at(c, "Apps"@, 0),
    };
    if let Some(ak) = apps_key {
        lemma_find_from(c, quoted("apps"@), 0);
        lemma_find_from(c, quoted("Apps"@), 0);
        lemma_find_char(c, '{', ak);
        if let Some(ao) = find_char(c, '{', ak) {
            lemma_brace_scan_bound(c, ao, 0, false, false);
            if let Some(ac) = matching_brace_at(c, ao) {
                let sect = c.subrange(ao, ac);
                lemma_find_from(sect, quoted(app_id), 0);
                match find_from(sect, quoted(app_id), 0) {
                    None => {
                        let m = app_block(app_id, esc);
                        let k = m.len() - esc.len() - 8;
                        reveal_strlit("\n\t\t\t\t\t\"");
                        reveal_strlit("\"\n\t\t\t\t\t{\n\t\t\t\t\t\t\"LaunchOptions\"\t\t\"");
                        reveal_strlit("\"\n\t\t\t\t\t}");
                        assert(m.subrange(k, k + esc.len()) =~= esc);
                        assert(crate::text::occurs_at(m, esc, k));
                        assert(insert_at(c, ao + 1, m) == c.take(ao + 1) + m + c.skip(ao + 1));
                    },
                    Some(r1) => {
                        let app_key = ao + r1;
                        let tail = c.subrange(app_key, ac);
                        lemma_find_char(tail, '{', 0);
                        if let Some(r2) = find_char(tail, '{', 0) {
                            let ap = app_key + r2;
                            lemma_brace_scan_bound(c, ap, 0, false, false);
                            if let Some(apc) = matching_brace_at(c, ap) {
                                let blk = c.subrange(ap, apc);
                                lemma_find_from(blk, quoted("LaunchOptions"@), 0);
                                match find_from(blk, quoted("LaunchOptions"@), 0) {
                                    None => {
                                        let m = launch_options_entry(esc);
                                        let k = m.len() - esc.len() - 1;
                                        reveal_strlit("\n\t\t\t\t\t\t\"LaunchOptions\"\t\t\"");
                                        reveal_strlit("\"");
                                        assert(m.subrange(k, k + esc.len()) =~= esc);
                                        assert(crate::text::occurs_at(m, esc, k));
                                    },
                                    Some(r3) => {
                                        let after = ap + r3 + quoted("LaunchOptions"@).len();
                                        let rest = c.subrange(after, apc);
                                        lemma_find_char(rest, '"', 0);
                                        if let Some(r4) = find_char(rest, '"', 0) {
                                            let vo = after + r4;
                                            lemma_string_end_bound(c, vo + 1, false);
                                            assert(esc.subrange(0, esc.len() as int) =~= esc);
                                            assert(crate::text::occurs_at(esc, esc, 0));
                                        }
                                    },
                                }
                            }
                        }
                    },
                }
            }
        }
    }
}

proof fn lemma_scan_skips_escaped(s: Seq<char>, t: Seq<char>, i: int)
    requires
        0 <= i,
        i + escape_vdf_text(s).len() <= t.len(),
        t.subrange(i, i + escape_vdf_text(s).len()) == escape_vdf_text(s),
    ensures
        string_end_scan(t, i, false) == string_end_scan(t, i + escape_vdf_text(s).len(), false),
    decreases s.len(),
{
    if s.len() > 0 {
        let s1 = s.drop_last();
        let c = s.last();
        let e1 = escape_vdf_text(s1);
        let e = escape_char(c);
        assert(escape_vdf_text(s) == e1 + e);
        assert(t.subrange(i, i + e1.len()) =~= e1) by {
            assert forall|k: int| 0 <= k < e1.len() implies t.subrange(i, i + e1.len())[k] == e1[k] by {
                assert(t.subrange(i, i + escape_vdf_text(s).len())[k] == t[i + k]);
                assert((e1 + e)[k] == e1[k]);
            }
        }
        lemma_scan_skips_escaped(s1, t, i);
        let j = i + e1.len();
        assert forall|k: int| 0 <= k < e.len() implies t[j + k] == e[k] by {
            assert(t.subrange(i, i + escape_vdf_text(s).len())[e1.len() + k] == t[j + k]);
            assert((e1 + e)[e1.len() + k] == e[k]);
        }
        if c == '\\' || c == '"' {
            assert(t[j + 0] == e[0]);
            assert(t[j] == '\\');
            assert(string_end_scan(t, j, false) == string_end_scan(t, j + 1, true));
            assert(string_end_scan(t, j + 1, true) == string_end_scan(t, j + 2, false));
        } else {
            assert(e[0] == c);
            assert(t[j + 0] == e[0]);
            assert(string_end_scan(t, j, false) == string_end_scan(t, j + 1, false));
        }
    }
}

/// A launch option is written so that it reads back whole: wherever its escaped text is
/// followed by a `"`, the VDF string that starts with it ends at that `"` (no quote inside
/// the option ends the string early, and no backslash swallows the closing quote).
pub proof fn lemma_escaped_value_reads_back(option: Seq<char>, t: Seq<char>, i: int)
    requires
        0 <= i,
        i + escape_vdf_text(option).len() < t.len(),
        t.subrange(i, i + escape_vdf_text(option).len()) == escape_vdf_text(option),
        t[i + escape_vdf_text(option).len()] == '"',
    ensures
        string_end_scan(t, i, false) == Some(i + escape_vdf_text(option).len()),
{
    lemma_scan_skips_escaped(option, t, i);
}

/// Where Steam keeps per-user data under a home directory, in the order they are tried.
pub open spec fn userdata_roots_of(home: Seq<char>) -> Seq<Seq<char>> {
    seq![
        crate::path::joined_path(home, ".steam/steam/userdata"@),
        crate::path::joined_path(home, ".local/share/Steam/userdata"@),
        crate::path::joined_path(home, ".steam/root/userdata"@),
        crate::path::joined_path(home, ".var/app/com.valvesoftware.Steam/.local/share/Steam/userdata"@),
    ]
}

/// The Steam user-data directories to look in under a home directory; the caller keeps
/// those that exist.
pub fn userdata_roots(home: &str) -> (r: Vec<String>)
    ensures
        crate::text::strings_view(r@) == userdata_roots_of(home@),
{
    let mut v: Vec<String> = Vec::new();
    v.push(crate::path::join_path(home, ".steam/steam/userdata"));
    v.push(crate::path::join_path(home, ".local/share/Steam/userdata"));
    v.push(crate::path::join_path(home, ".steam/root/userdata"));
    v.push(crate::path::join_path(home, ".var/app/com.valvesoftware.Steam/.local/share/Steam/userdata"));
    assert(crate::text::strings_view(v@) =~= userdata_roots_of(home@));
    v
}

/// A `localconfig.vdf` found on disk: its path, its text when it could be read, and its
/// modification time `(seconds, nanoseconds)` when known.
#[derive(Debug, Clone)]
pub struct ConfigFile {
    pub path: String,
    pub content: Option<String>,
    pub modified: Option<(u64, u32)>,
}

/// Whether a config names the app (holds `"APPID"`).
pub open spec fn names_app(f: ConfigFile, app_id: Seq<char>) -> bool {
    match f.content {
        Some(c) => crate::text::contains(c@, quoted(app_id)),
        None => false,
    }
}

/// The configs that name the app, in their order.
pub open spec fn naming_app(files: Seq<ConfigFile>, app_id: Seq<char>) -> Seq<ConfigFile> {
    files.filter(|f: ConfigFile| names_app(f, app_id))
}

/// Whether modification time `a` is earlier than `b` (an unknown time is the earliest).
pub open spec fn earlier(a: Option<(u64, u32)>, b: Option<(u64, u32)>) -> bool {
    match (a, b) {
        (None, Some(_)) => true,
        (Some(x), Some(y)) => x.0 < y.0 || (x.0 == y.0 && x.1 < y.1),
        _ => false,
    }
}

/// `out` is `files` newest first: sorted by modification time, stably, then reversed.
pub open spec fn newest_first(files: Seq<ConfigFile>, out: Seq<ConfigFile>) -> bool {
    exists|asc: Seq<ConfigFile>|
        asc.len() == files.len() && (forall|i: int, j: int|
            0 <= i < j < asc.len() ==> !earlier(#[trigger] asc[j].modified, #[trigger] asc[i].modified))
            && crate::order::same_per_key(files, asc, |f: ConfigFile| f.modified) && out == asc.reverse()
}

/// The order in which configs are tried: those that name the app, in their order, else
/// all of them, newest first.
pub open spec fn config_order(files: Seq<ConfigFile>, app_id: Seq<char>, out: Seq<ConfigFile>) -> bool {
    if naming_app(files, app_id).len() > 0 {
        out == naming_app(files, app_id)
    } else {
        newest_first(files, out)
    }
}

fn is_earlier(a: Option<(u64, u32)>, b: Option<(u64, u32)>) -> (r: bool)
    ensures
        r == earlier(a, b),
{
    match (a, b) {
        (None, Some(_)) => true,
        (Some(x), Some(y)) => x.0 < y.0 || (x.0 == y.0 && x.1 < y.1),
        _ => false,
    }
}

/// Orders the configs found for `app_id` in the order they are tried.
pub fn order_configs(files: Vec<ConfigFile>, app_id: &str) -> (r: Vec<ConfigFile>)
    ensures
        config_order(files@, app_id@, r@),
{
    let needle = quoted_chars(app_id);
    let ghost pred = |f: ConfigFile| names_app(f, app_id@);
    let ghost all0 = files@;
    let mut src = files;
    let mut named: Vec<ConfigFile> = Vec::new();
    let mut others: Vec<ConfigFile> = Vec::new();
    let ghost seen: Seq<ConfigFile> = Seq::empty();
    while src.len() > 0
        invariant
            all0 == seen + src@,
            needle@ == quoted(app_id@),
            pred == (|f: ConfigFile| names_app(f, app_id@)),
            named@ == seen.filter(pred),
            named@.len() == 0 ==> others@ == seen,
        decreases src@.len(),
    {
        let f = src.remove(0);
        proof {
            seen.lemma_filter_push(f, pred);
        }
        let hit = match &f.content {
            Some(c) => crate::text::contains_exec(&chars_of(c.as_str()), &needle),
            None => false,
        };
        proof {
            seen = seen.push(f);
            assert(all0 =~= seen + src@);
        }
        if hit {
            named.push(f);
        } else {
            others.push(f);
        }
    }
    assert(seen =~= all0);
    if named.len() > 0 {
        return named;
    }
    let files = others;
    let ghost key = |f: ConfigFile| f.modified;
    let ghost all = files@;
    let mut rest = files;
    let mut asc: Vec<ConfigFile> = Vec::new();
    let ghost done: Seq<ConfigFile> = Seq::empty();
    while rest.len() > 0
        invariant
            all == done + rest@,
            asc@.len() == done.len(),
            forall|i: int, j: int|
                0 <= i < j < asc@.len() ==> !earlier(#[trigger] asc@[j].modified, #[trigger] asc@[i].modified),
            crate::order::same_per_key(done, asc@, key),
            key == (|f: ConfigFile| f.modified),
        decreases rest@.len(),
    {
        let x = rest.remove(0);
        let mut pos = asc.len();
        while pos > 0 && is_earlier(x.modified, asc[pos - 1].modified)
            invariant
                pos <= asc@.len(),
                forall|j: int| pos <= j < asc@.len() ==> earlier(x.modified, (#[trigger] asc@[j]).modified),
            decreases pos,
        {
            pos = pos - 1;
        }
        proof {
            assert forall|j: int| pos <= j < asc@.len() implies key(#[trigger] asc@[j]) != key(x) by {
                assert(earlier(x.modified, asc@[j].modified));
            }
            assert forall|k: Option<(u64, u32)>| #[trigger] crate::order::with_key(asc@.insert(pos as int, x), key, k)
                == crate::order::with_key(done.push(x), key, k) by {
                crate::order::lemma_insert_keys(asc@, pos as int, x, key, k);
                crate::order::lemma_push_keys(done, x, key, k);
            }
            let new = asc@.insert(pos as int, x);
            assert forall|i: int, j: int| 0 <= i < j < new.len() implies !earlier(
                #[trigger] new[j].modified,
                #[trigger] new[i].modified,
            ) by {
                if j < pos {
                } else if j == pos {
                    if i < pos - 1 {
                        assert(!earlier(asc@[pos - 1].modified, asc@[i].modified));
                    }
                } else if i < pos {
                    assert(new[j] == asc@[j - 1]);
                    assert(new[i] == asc@[i]);
                } else if i == pos {
                    assert(new[j] == asc@[j - 1]);
                    assert(earlier(x.modified, asc@[j - 1].modified));
                } else {
                    assert(new[i] == asc@[i - 1]);
                    assert(new[j] == asc@[j - 1]);
                }
            }
        }
        asc.insert(pos, x);
        proof {
            done = done.push(x);
            assert(all =~= done + rest@);
        }
    }
    assert(done =~= all);
    let ghost asc_view = asc@;
    let mut out: Vec<ConfigFile> = Vec::new();
    assert(asc_view.subrange(0, asc_view.len() as int) =~= asc_view);
    assert(asc_view.subrange(asc_view.len() as int, asc_view.len() as int).reverse() =~= out@);
    while asc.len() > 0
        invariant
            asc@ == asc_view.subrange(0, asc@.len() as int),
            asc@.len() <= asc_view.len(),
            out@ == asc_view.subrange(asc@.len() as int, asc_view.len() as int).reverse(),
        decreases asc@.len(),
    {
        let ghost k = asc@.len() as int;
        let x = asc.pop().unwrap();
        assert(x == asc_view[k - 1]);
        out.push(x);
        assert(asc_view.subrange(k - 1, asc_view.len() as int).reverse() =~= asc_view.subrange(
            k,
            asc_view.len() as int,
        ).reverse().push(asc_view[k - 1]));
        assert(asc@ =~= asc_view.subrange(0, k - 1));
    }
    assert(asc_view.subrange(0, asc_view.len() as int).reverse() =~= asc_view.reverse());
    assert(out@ =~= asc_view.reverse());
    out
}


/// A config as read for `set_launch_option`: its path and its text, or the reason it could
/// not be read.
#[derive(Debug)]
pub struct ConfigRead {
    pub path: String,
    pub content: Result<String, String>,
}

/// The edit that sets a launch option: which config (by position) gets which new text.
#[derive(Debug, Clone)]
pub struct ConfigEdit {
    pub index: usize,
    pub new_content: String,
}

/// The message for a config that could not be read.
pub open spec fn read_failure(path: Seq<char>, err: Seq<char>) -> Seq<char> {
    "read "@ + path + ": "@ + err
}

/// Trying the configs from position `i` on, with `last` the error so far: the first config
/// that was read and whose text takes the option is edited; otherwise the last error stands.
pub open spec fn try_configs(
    configs: Seq<ConfigRead>,
    i: int,
    app_id: Seq<char>,
    option: Seq<char>,
    last: Option<Seq<char>>,
) -> Result<(int, Seq<char>), Seq<char>>
    decreases configs.len() - i,
{
    if i < 0 || i >= configs.len() {
        match last {
            Some(e) => Err(e),
            None => Err("couldn't set the launch option"@),
        }
    } else {
        match configs[i].content {
            Err(e) => try_configs(configs, i + 1, app_id, option, Some(read_failure(configs[i].path@, e@))),
            Ok(c) => match set_launch_result(c@, app_id, option) {
                Ok(t) => Ok((i, t)),
                Err(e) => try_configs(configs, i + 1, app_id, option, Some(e)),
            },
        }
    }
}

/// Setting a launch option: refused while Steam runs (it rewrites its config on exit) or
/// when no config was found; otherwise the configs are tried in order.
pub open spec fn launch_option_edit(
    steam_running: bool,
    app_id: Seq<char>,
    option: Seq<char>,
    configs: Seq<ConfigRead>,
) -> Result<(int, Seq<char>), Seq<char>> {
    if steam_running {
        Err(
            "Steam is running — fully close it first (Steam → Exit), then try again. Steam overwrites its config on exit."@,
        )
    } else if configs.len() == 0 {
        Err("Couldn't find Steam's config (localconfig.vdf). Is Steam installed for this user?"@)
    } else {
        try_configs(configs, 0, app_id, option, None)
    }
}

/// Decides how to set the launch option of `app_id` from whether Steam runs and the configs
/// read in the order they are tried; the caller backs up and writes the config it names.
pub fn set_launch_option(
    steam_running: bool,
    app_id: &str,
    option: &str,
    configs: &Vec<ConfigRead>,
) -> (r: Result<ConfigEdit, String>)
    ensures
        match r {
            Ok(e) => launch_option_edit(steam_running, app_id@, option@, configs@) == Ok::<
                (int, Seq<char>),
                Seq<char>,
            >((e.index as int, e.new_content@)),
            Err(e) => launch_option_edit(steam_running, app_id@, option@, configs@) == Err::<
                (int, Seq<char>),
                Seq<char>,
            >(e@),
        },
{
    if steam_running {
        return Err(
            String::from_str(
                "Steam is running — fully close it first (Steam → Exit), then try again. Steam overwrites its config on exit.",
            ),
        );
    }
    if configs.len() == 0 {
        return Err(
            String::from_str(
                "Couldn't find Steam's config (localconfig.vdf). Is Steam installed for this user?",
            ),
        );
    }
    let mut last: Option<String> = None;
    let mut i: usize = 0;
    while i < configs.len()
        invariant
            i <= configs@.len(),
            !steam_running,
            configs@.len() > 0,
            try_configs(configs@, 0, app_id@, option@, None) == try_configs(
                configs@,
                i as int,
                app_id@,
                option@,
                match last {
                    Some(e) => Some(e@),
                    None => None,
                },
            ),
        decreases configs@.len() - i,
    {
        let cfg = &configs[i];
        assert(configs@[i as int] == *cfg);
        match &cfg.content {
            Err(e) => {
                let mut m = String::from_str("read ");
                push_str(&mut m, cfg.path.as_str());
                push_str(&mut m, ": ");
                push_str(&mut m, e.as_str());
                last = Some(m);
            },
            Ok(c) => match set_launch_in_vdf(c.as_str(), app_id, option) {
                Ok(t) => {
                    assert(set_launch_result(c@, app_id@, option@) == Ok::<Seq<char>, Seq<char>>(t@));
                    assert(configs@[i as int].content == Ok::<String, String>(*c));
                    return Ok(ConfigEdit { index: i, new_content: t });
                },
                Err(e) => {
                    last = Some(e);
                },
            },
        }
        i = i + 1;
    }
    match last {
        Some(e) => Err(e),
        None => Err(String::from_str("couldn't set the launch option")),
    }
}


/// The Steam URL that runs an app.
pub fn run_url(app_id: &str) -> (r: String)
    ensures
        r@ == "steam://run/"@ + app_id@,
{
    let mut s = String::from_str("steam://run/");
    push_str(&mut s, app_id);
    s
}

/// The message when Steam was asked to run an app.
pub fn launching_message(app_id: &str) -> (r: String)
    ensures
        r@ == "launching appid "@ + app_id@ + " via Steam"@,
{
    let mut s = String::from_str("launching appid ");
    push_str(&mut s, app_id);
    push_str(&mut s, " via Steam");
    s
}

/// Where the `apps` section's key starts: the first `"apps"`, else the first `"Apps"`.
pub open spec fn apps_key(c: Seq<char>) -> Option<int> {
    match quoted_key_at(c, "apps"@, 0) {
        Some(k) => Some(k),
        None => quoted_key_at(c, "Apps"@, 0),
    }
}

/// Whether an edit leaves the section's key to be found where it was: a text without
/// `"apps"`, whose section is keyed `"Apps"`, gets no `"apps"` from the edit.
pub open spec fn edit_keeps_apps_key(c: Seq<char>, app_id: Seq<char>, option: Seq<char>) -> bool {
    quoted_key_at(c, "apps"@, 0) is None ==> match set_launch_text(c, app_id, option) {
        Ok(t) => quoted_key_at(t, "apps"@, 0) is None,
        Err(_) => true,
    }
}

proof fn lemma_apps_key_bounds(c: Seq<char>)
    requires
        apps_key(c) is Some,
    ensures
        ({
            let ak = apps_key(c)->0;
            &&& 0 <= ak
            &&& ak + 6 <= c.len()
            &&& forall|i: int| ak <= i < ak + 6 ==> #[trigger] c[i] != '{'
        }),
{
    reveal_strlit("apps");
    reveal_strlit("Apps");
    lemma_find_from(c, quoted("apps"@), 0);
    lemma_find_from(c, quoted("Apps"@), 0);
    let ak = apps_key(c)->0;
    assert forall|i: int| ak <= i < ak + 6 implies #[trigger] c[i] != '{' by {
        assert(c[i] == c.subrange(ak, ak + 6)[i - ak]);
    }
}

proof fn lemma_apps_key_kept(c: Seq<char>, t: Seq<char>, m: int)
    requires
        apps_key(c) is Some,
        apps_key(c)->0 + 6 <= m,
        m <= c.len(),
        m <= t.len(),
        c.take(m) == t.take(m),
        quoted_key_at(c, "apps"@, 0) is None ==> quoted_key_at(t, "apps"@, 0) is None,
    ensures
        apps_key(t) == apps_key(c),
{
    reveal_strlit("apps");
    reveal_strlit("Apps");
    lemma_apps_key_bounds(c);
    let ak = apps_key(c)->0;
    if quoted_key_at(c, "apps"@, 0) is Some {
        lemma_find_from_prefix(c, t, quoted("apps"@), 0, ak, m);
    } else {
        lemma_find_from_prefix(c, t, quoted("Apps"@), 0, ak, m);
    }
}

/// One step of the brace scanner at `i`: the state it goes on in, or `None` where the block
/// it scans closes there.
pub open spec fn brace_step(s: Seq<char>, i: int, depth: int, in_str: bool, esc: bool) -> Option<(int, bool, bool)> {
    let c = s[i];
    if in_str {
        if esc {
            Some((depth, true, false))
        } else if c == '\\' {
            Some((depth, true, true))
        } else if c == '"' {
            Some((depth, false, false))
        } else {
            Some((depth, true, false))
        }
    } else if c == '"' {
        Some((depth, true, esc))
    } else if c == '{' {
        Some((depth + 1, false, esc))
    } else if c == '}' {
        if depth - 1 == 0 {
            None
        } else {
            Some((depth - 1, false, esc))
        }
    } else {
        Some((depth, false, esc))
    }
}

/// The state in which the brace scanner, started at `i` in the given state, reaches `j`
/// (`None` where the block it scans closes before `j`, or `j` lies outside `s`).
pub open spec fn scan_state(s: Seq<char>, i: int, j: int, depth: int, in_str: bool, esc: bool) -> Option<
    (int, bool, bool),
>
    decreases j - i,
{
    if i == j {
        Some((depth, in_str, esc))
    } else if i > j || i < 0 || i >= s.len() {
        None
    } else {
        match brace_step(s, i, depth, in_str, esc) {
            None => None,
            Some(st) => scan_state(s, i + 1, j, st.0, st.1, st.2),
        }
    }
}

proof fn lemma_brace_scan_step(s: Seq<char>, i: int, depth: int, in_str: bool, esc: bool)
    requires
        0 <= i < s.len(),
    ensures
        brace_scan(s, i, depth, in_str, esc) == match brace_step(s, i, depth, in_str, esc) {
            None => Some(i),
            Some(st) => brace_scan(s, i + 1, st.0, st.1, st.2),
        },
{
}

proof fn lemma_scan_state_compose(s: Seq<char>, i: int, j: int, depth: int, in_str: bool, esc: bool)
    requires
        scan_state(s, i, j, depth, in_str, esc) is Some,
    ensures
        ({
            let st = scan_state(s, i, j, depth, in_str, esc)->0;
            brace_scan(s, i, depth, in_str, esc) == brace_scan(s, j, st.0, st.1, st.2)
        }),
    decreases j - i,
{
    if i != j {
        lemma_brace_scan_step(s, i, depth, in_str, esc);
        let st = brace_step(s, i, depth, in_str, esc)->0;
        lemma_scan_state_compose(s, i + 1, j, st.0, st.1, st.2);
    }
}

proof fn lemma_scan_state_extend(s: Seq<char>, i: int, j: int, depth: int, in_str: bool, esc: bool)
    requires
        i <= j < s.len(),
        0 <= i,
        scan_state(s, i, j, depth, in_str, esc) is Some,
        ({
            let st = scan_state(s, i, j, depth, in_str, esc)->0;
            brace_step(s, j, st.0, st.1, st.2) is Some
        }),
    ensures
        ({
            let st = scan_state(s, i, j, depth, in_str, esc)->0;
            scan_state(s, i, j + 1, depth, in_str, esc) == brace_step(s, j, st.0, st.1, st.2)
        }),
    decreases j - i,
{
    if i < j {
        let st = brace_step(s, i, depth, in_str, esc)->0;
        lemma_scan_state_extend(s, i + 1, j, st.0, st.1, st.2);
    } else {
        let st2 = brace_step(s, j, depth, in_str, esc)->0;
        assert(scan_state(s, j + 1, j + 1, st2.0, st2.1, st2.2) == Some(st2));
    }
}

proof fn lemma_scan_state_join(s: Seq<char>, i: int, j: int, k: int, depth: int, in_str: bool, esc: bool)
    requires
        scan_state(s, i, j, depth, in_str, esc) is Some,
        ({
            let st = scan_state(s, i, j, depth, in_str, esc)->0;
            scan_state(s, j, k, st.0, st.1, st.2) is Some
        }),
    ensures
        ({
            let st = scan_state(s, i, j, depth, in_str, esc)->0;
            scan_state(s, i, k, depth, in_str, esc) == scan_state(s, j, k, st.0, st.1, st.2)
        }),
    decreases j - i,
{
    if i != j {
        let st = brace_step(s, i, depth, in_str, esc)->0;
        lemma_scan_state_join(s, i + 1, j, k, st.0, st.1, st.2);
    }
}

proof fn lemma_scan_state_prefix(
    s1: Seq<char>,
    s2: Seq<char>,
    i: int,
    j: int,
    depth: int,
    in_str: bool,
    esc: bool,
)
    requires
        0 <= i,
        j <= s1.len(),
        j <= s2.len(),
        s1.take(j) == s2.take(j),
    ensures
        scan_state(s1, i, j, depth, in_str, esc) == scan_state(s2, i, j, depth, in_str, esc),
    decreases j - i,
{
    if i < j {
        assert(s1[i] == s1.take(j)[i]);
        assert(s2[i] == s2.take(j)[i]);
        match brace_step(s1, i, depth, in_str, esc) {
            None => {},
            Some(st) => lemma_scan_state_prefix(s1, s2, i + 1, j, st.0, st.1, st.2),
        }
    }
}

/// `o` moved on by `d`.
pub open spec fn shifted(o: Option<int>, d: int) -> Option<int> {
    match o {
        Some(x) => Some(x + d),
        None => None,
    }
}

proof fn lemma_brace_scan_shift(
    s1: Seq<char>,
    s2: Seq<char>,
    a: int,
    b: int,
    k: int,
    depth: int,
    in_str: bool,
    esc: bool,
)
    requires
        0 <= a <= s1.len(),
        0 <= b <= s2.len(),
        0 <= k,
        s1.skip(a) == s2.skip(b),
    ensures
        brace_scan(s2, b + k, depth, in_str, esc) == shifted(brace_scan(s1, a + k, depth, in_str, esc), b - a),
    decreases s1.len() - (a + k),
{
    assert(s1.skip(a).len() == s1.len() - a);
    assert(s2.skip(b).len() == s2.len() - b);
    assert(s1.len() - a == s2.len() - b);
    if a + k < s1.len() {
        assert(s1[a + k] == s1.skip(a)[k]);
        assert(s2[b + k] == s2.skip(b)[k]);
        lemma_brace_scan_step(s1, a + k, depth, in_str, esc);
        lemma_brace_scan_step(s2, b + k, depth, in_str, esc);
        match brace_step(s1, a + k, depth, in_str, esc) {
            None => {},
            Some(st) => lemma_brace_scan_shift(s1, s2, a, b, k + 1, st.0, st.1, st.2),
        }
    }
}

proof fn lemma_string_skipped(s: Seq<char>, i: int, e: int, depth: int, esc: bool)
    requires
        0 <= i,
        string_end_scan(s, i, esc) == Some(e),
    ensures
        scan_state(s, i, e + 1, depth, true, esc) == Some((depth, false, false)),
        s[e] == '"',
        i <= e < s.len(),
    decreases s.len() - i,
{
    lemma_string_end_bound(s, i, esc);
    if esc {
        lemma_string_skipped(s, i + 1, e, depth, false);
    } else if s[i] == '\\' {
        lemma_string_skipped(s, i + 1, e, depth, true);
    } else if s[i] == '"' {
        assert(e == i);
        assert(scan_state(s, i + 1, i + 1, depth, false, false) == Some((depth, false, false)));
    } else {
        lemma_string_skipped(s, i + 1, e, depth, false);
    }
}

proof fn lemma_find_from_prefix(h1: Seq<char>, h2: Seq<char>, n: Seq<char>, from: int, r: int, m: int)
    requires
        0 <= from <= r,
        find_from(h1, n, from) == Some(r),
        r + n.len() <= m,
        m <= h1.len(),
        m <= h2.len(),
        h1.take(m) == h2.take(m),
    ensures
        find_from(h2, n, from) == Some(r),
    decreases r - from,
{
    lemma_find_from(h1, n, from);
    assert(h1.subrange(from, from + n.len()) =~= h2.subrange(from, from + n.len())) by {
        assert forall|k: int| 0 <= k < n.len() implies #[trigger] h1.subrange(from, from + n.len())[k]
            == h2.subrange(from, from + n.len())[k] by {
            assert(h1[from + k] == h1.take(m)[from + k]);
            assert(h2[from + k] == h2.take(m)[from + k]);
        }
    }
    if from < r {
        lemma_find_from_prefix(h1, h2, n, from + 1, r, m);
    }
}

proof fn lemma_find_char_prefix(s1: Seq<char>, s2: Seq<char>, c: char, from: int, r: int, m: int)
    requires
        0 <= from <= r < m,
        m <= s1.len(),
        m <= s2.len(),
        s1.take(m) == s2.take(m),
        find_char(s1, c, from) == Some(r),
    ensures
        find_char(s2, c, from) == Some(r),
    decreases r - from,
{
    lemma_find_char(s1, c, from);
    assert(s1[from] == s1.take(m)[from]);
    assert(s2[from] == s2.take(m)[from]);
    if from < r {
        lemma_find_char_prefix(s1, s2, c, from + 1, r, m);
    }
}

/// Where setting a launch option replaces an existing value: the opening `{` of the `apps`
/// section and of the app's block, and the opening and closing `"` of the value.
pub open spec fn value_spot(c: Seq<char>, app_id: Seq<char>) -> Option<(int, int, int, int)> {
    let apps_key = match quoted_key_at(c, "apps"@, 0) {
        Some(k) => Some(k),
        None => quoted_key_at(c, "Apps"@, 0),
    };
    match apps_key {
        None => None,
        Some(ak) => match find_char(c, '{', ak) {
            None => None,
            Some(ao) => match matching_brace_at(c, ao) {
                None => None,
                Some(ac) => match find_from(c.subrange(ao, ac), quoted(app_id), 0) {
                    None => None,
                    Some(r1) => match find_char(c.subrange(ao + r1, ac), '{', 0) {
                        None => None,
                        Some(r2) => {
                            let ap = ao + r1 + r2;
                            match matching_brace_at(c, ap) {
                                None => None,
                                Some(apc) => match find_from(c.subrange(ap, apc), quoted("LaunchOptions"@), 0) {
                                    None => None,
                                    Some(r3) => {
                                        let after = ap + r3 + quoted("LaunchOptions"@).len();
                                        match find_char(c.subrange(after, apc), '"', 0) {
                                            None => None,
                                            Some(r4) => match string_end_scan(c, after + r4 + 1, false) {
                                                None => None,
                                                Some(vc) => Some((ao, ap, after + r4, vc)),
                                            },
                                        }
                                    },
                                },
                            }
                        },
                    },
                },
            },
        },
    }
}

/// Whether the brace scanner, started at the `{` at `open`, reaches `at` outside any string.
pub open spec fn scanned_outside_strings(c: Seq<char>, open: int, at: int) -> bool {
    scan_state(c, open, at, 0, false, false) matches Some(st) && !st.1 && !st.2
}

/// Where the brace scanner from `open` reads the value at `vo` as a string, the block closes
/// at the same place of the text with the value replaced by an escaped one.
proof fn lemma_block_end_moves(c: Seq<char>, open: int, vo: int, vc: int, option: Seq<char>)
    requires
        0 <= open <= vo,
        vo < vc < c.len(),
        c[vo] == '"',
        string_end_scan(c, vo + 1, false) == Some(vc),
        scanned_outside_strings(c, open, vo),
        brace_scan(c, open, 0, false, false) is Some,
    ensures
        ({
            let esc = escape_vdf_text(option);
            let t = c.take(vo + 1) + esc + c.skip(vc);
            let ac = brace_scan(c, open, 0, false, false)->0;
            &&& vc < ac
            &&& brace_scan(t, open, 0, false, false) == Some(ac + (vo + 1 + esc.len() - vc))
            &&& string_end_scan(t, vo + 1, false) == Some(vo + 1 + esc.len())
        }),
{
    let esc = escape_vdf_text(option);
    let t = c.take(vo + 1) + esc + c.skip(vc);
    let et = vo + 1 + esc.len();
    let st0 = scan_state(c, open, vo, 0, false, false)->0;
    let d = st0.0;
    lemma_scan_state_extend(c, open, vo, 0, false, false);
    lemma_string_skipped(c, vo + 1, vc, d, false);
    lemma_scan_state_join(c, open, vo + 1, vc + 1, 0, false, false);
    lemma_scan_state_compose(c, open, vc + 1, 0, false, false);
    lemma_brace_scan_bound(c, vc + 1, d, false, false);
    assert(t.take(vo + 1) =~= c.take(vo + 1));
    assert(t.take(vo) =~= c.take(vo));
    assert(t[vo] == c[vo]);
    lemma_scan_state_prefix(c, t, open, vo, 0, false, false);
    lemma_scan_state_extend(t, open, vo, 0, false, false);
    assert(t.subrange(vo + 1, et) =~= esc);
    assert(t[et] == c[vc]);
    lemma_escaped_value_reads_back(option, t, vo + 1);
    lemma_string_skipped(t, vo + 1, et, d, false);
    lemma_scan_state_join(t, open, vo + 1, et + 1, 0, false, false);
    lemma_scan_state_compose(t, open, et + 1, 0, false, false);
    assert(c.skip(vc + 1) =~= t.skip(et + 1));
    lemma_brace_scan_shift(c, t, vc + 1, et + 1, 0, d, false, false);
}

proof fn lemma_replacing_value(
    c: Seq<char>,
    app_id: Seq<char>,
    option: Seq<char>,
    ak: int,
    ao: int,
    ac: int,
    r1: int,
    r2: int,
    apc: int,
    r3: int,
    r4: int,
    vc: int,
)
    requires
        apps_key(c) == Some(ak),
        find_char(c, '{', ak) == Some(ao),
        matching_brace_at(c, ao) == Some(ac),
        find_from(c.subrange(ao, ac), quoted(app_id), 0) == Some(r1),
        find_char(c.subrange(ao + r1, ac), '{', 0) == Some(r2),
        matching_brace_at(c, ao + r1 + r2) == Some(apc),
        find_from(c.subrange(ao + r1 + r2, apc), quoted("LaunchOptions"@), 0) == Some(r3),
        find_char(c.subrange(ao + r1 + r2 + r3 + quoted("LaunchOptions"@).len(), apc), '"', 0) == Some(r4),
        string_end_scan(c, ao + r1 + r2 + r3 + quoted("LaunchOptions"@).len() + r4 + 1, false) == Some(vc),
    ensures
        set_launch_text(c, app_id, option) == Ok::<Seq<char>, VdfFault>(
            c.take(ao + r1 + r2 + r3 + quoted("LaunchOptions"@).len() + r4 + 1) + escape_vdf_text(option)
                + c.skip(vc),
        ),
{
}

#[verifier::rlimit(40)]
proof fn lemma_replaced_value_kept(c: Seq<char>, app_id: Seq<char>, option: Seq<char>)
    requires
        edit_keeps_apps_key(c, app_id, option),
        forall|k: int| 0 <= k < app_id.len() ==> app_id[k] != '{',
        value_spot(c, app_id) matches Some(spot) && scanned_outside_strings(c, spot.0, spot.2)
            && scanned_outside_strings(c, spot.1, spot.2),
    ensures
        set_launch_text(c, app_id, option) matches Ok(t) && set_launch_text(t, app_id, option)
            == Ok::<Seq<char>, VdfFault>(t),
{
    reveal_strlit("LaunchOptions");
    let qid = quoted(app_id);
    let qlo = quoted("LaunchOptions"@);
    let esc = escape_vdf_text(option);
    let ak = apps_key(c)->0;
    lemma_apps_key_bounds(c);
    let ao = find_char(c, '{', ak)->0;
    lemma_find_char(c, '{', ak);
    let ac = matching_brace_at(c, ao)->0;
    lemma_brace_scan_bound(c, ao, 0, false, false);
    let sect = c.subrange(ao, ac);
    let r1 = find_from(sect, qid, 0)->0;
    lemma_find_from(sect, qid, 0);
    let app_key = ao + r1;
    let tail = c.subrange(app_key, ac);
    let r2 = find_char(tail, '{', 0)->0;
    lemma_find_char(tail, '{', 0);
    let ap = app_key + r2;
    let apc = matching_brace_at(c, ap)->0;
    lemma_brace_scan_bound(c, ap, 0, false, false);
    let blk = c.subrange(ap, apc);
    let r3 = find_from(blk, qlo, 0)->0;
    lemma_find_from(blk, qlo, 0);
    let after = ap + r3 + qlo.len();
    let rest = c.subrange(after, apc);
    let r4 = find_char(rest, '"', 0)->0;
    lemma_find_char(rest, '"', 0);
    let vo = after + r4;
    let vc = string_end_scan(c, vo + 1, false)->0;
    assert(value_spot(c, app_id) == Some((ao, ap, vo, vc)));
    lemma_string_skipped(c, vo + 1, vc, 0, false);
    assert(c[vo] == rest[r4]);
    let t = c.take(vo + 1) + esc + c.skip(vc);
    lemma_replacing_value(c, app_id, option, ak, ao, ac, r1, r2, apc, r3, r4, vc);
    assert(ak + 6 <= ao) by {
        if ao < ak + 6 {
            assert(c[ao] != '{');
        }
    }
    assert(app_key + qid.len() <= ap) by {
        if ap < app_key + qid.len() {
            assert(c[ap] == tail[r2]);
            assert(c[ap] == sect.subrange(r1, r1 + qid.len())[ap - app_key]);
            assert(qid[ap - app_key] != '{');
        }
    }
    assert(c[ap] == tail[r2]);
    let delta = vo + 1 + esc.len() - vc;
    lemma_block_end_moves(c, ao, vo, vc, option);
    lemma_block_end_moves(c, ap, vo, vc, option);
    let ac2 = ac + delta;
    let apc2 = apc + delta;
    let et = vo + 1 + esc.len();
    let m = vo + 1;
    assert(t.take(m) =~= c.take(m));
    lemma_apps_key_kept(c, t, m);
    lemma_find_char_prefix(c, t, '{', ak, ao, m);
    let sect2 = t.subrange(ao, ac2);
    assert(sect.take(m - ao) =~= sect2.take(m - ao));
    lemma_find_from_prefix(sect, sect2, qid, 0, r1, m - ao);
    let tail2 = t.subrange(app_key, ac2);
    assert(tail.take(m - app_key) =~= tail2.take(m - app_key));
    lemma_find_char_prefix(tail, tail2, '{', 0, r2, m - app_key);
    let blk2 = t.subrange(ap, apc2);
    assert(blk.take(m - ap) =~= blk2.take(m - ap));
    lemma_find_from_prefix(blk, blk2, qlo, 0, r3, m - ap);
    let rest2 = t.subrange(after, apc2);
    assert(rest.take(m - after) =~= rest2.take(m - after));
    lemma_find_char_prefix(rest, rest2, '"', 0, r4, m - after);
    lemma_replacing_value(t, app_id, option, ak, ao, ac2, r1, r2, apc2, r3, r4, et);
    assert(t.take(vo + 1) + esc + t.skip(et) =~= t);
}

/// Whether `s` holds no `\` and no `"`, so that it is written in a VDF string as it is.
pub open spec fn plain_text(s: Seq<char>) -> bool {
    forall|k: int| 0 <= k < s.len() ==> s[k] != '\\' && s[k] != '"'
}

proof fn lemma_plain_text_escapes_to_itself(s: Seq<char>)
    requires
        plain_text(s),
    ensures
        escape_vdf_text(s) == s,
    decreases s.len(),
{
    if s.len() > 0 {
        assert(plain_text(s.drop_last()));
        lemma_plain_text_escapes_to_itself(s.drop_last());
        assert(s.drop_last().push(s.last()) =~= s);
    }
}

/// Outside strings, the brace scanner passes over characters other than `"`, `{` and `}`
/// without a change of state.
proof fn lemma_scan_over_blanks(t: Seq<char>, p: int, q: int, depth: int)
    requires
        0 <= p <= q <= t.len(),
        forall|k: int| p <= k < q ==> t[k] != '"' && t[k] != '{' && t[k] != '}',
    ensures
        scan_state(t, p, q, depth, false, false) == Some((depth, false, false)),
    decreases q - p,
{
    if p < q {
        lemma_scan_over_blanks(t, p + 1, q, depth);
    }
}

/// Outside strings, the brace scanner passes over a quoted string that holds the escaped text
/// of `o` without a change of state.
proof fn lemma_scan_over_string(t: Seq<char>, p: int, o: Seq<char>, depth: int)
    requires
        0 <= p,
        p + 1 + escape_vdf_text(o).len() < t.len(),
        t[p] == '"',
        t.subrange(p + 1, p + 1 + escape_vdf_text(o).len()) == escape_vdf_text(o),
        t[p + 1 + escape_vdf_text(o).len()] == '"',
    ensures
        scan_state(t, p, p + 2 + escape_vdf_text(o).len(), depth, false, false) == Some(
            (depth, false, false),
        ),
        string_end_scan(t, p + 1, false) == Some(p + 1 + escape_vdf_text(o).len()),
{
    let e = p + 1 + escape_vdf_text(o).len();
    lemma_escaped_value_reads_back(o, t, p + 1);
    lemma_string_skipped(t, p + 1, e, depth, false);
    assert(scan_state(t, p, p + 1, depth, false, false) == Some((depth, true, false))) by {
        assert(scan_state(t, p + 1, p + 1, depth, true, false) == Some((depth, true, false)));
    }
    lemma_scan_state_join(t, p, p + 1, e + 1, depth, false, false);
}

proof fn lemma_find_from_first(h: Seq<char>, n: Seq<char>, from: int, r: int)
    requires
        0 <= from <= r,
        crate::text::occurs_at(h, n, r),
        forall|j: int| from <= j < r ==> !crate::text::occurs_at(h, n, j),
    ensures
        find_from(h, n, from) == Some(r),
    decreases r - from,
{
    if from < r {
        lemma_find_from_first(h, n, from + 1, r);
    }
}

proof fn lemma_find_char_first(s: Seq<char>, c: char, from: int, r: int)
    requires
        0 <= from <= r < s.len(),
        s[r] == c,
        forall|j: int| from <= j < r ==> s[j] != c,
    ensures
        find_char(s, c, from) == Some(r),
    decreases r - from,
{
    if from < r {
        lemma_find_char_first(s, c, from + 1, r);
    }
}

/// Whether setting a launch option adds a block for the app: the section is found and
/// closes, and holds no key for the app.
pub open spec fn adds_app_block(c: Seq<char>, app_id: Seq<char>) -> bool {
    let apps_key = match quoted_key_at(c, "apps"@, 0) {
        Some(k) => Some(k),
        None => quoted_key_at(c, "Apps"@, 0),
    };
    match apps_key {
        None => false,
        Some(ak) => match find_char(c, '{', ak) {
            None => false,
            Some(ao) => match matching_brace_at(c, ao) {
                None => false,
                Some(ac) => find_from(c.subrange(ao, ac), quoted(app_id), 0) is None,
            },
        },
    }
}

proof fn lemma_adding_block(c: Seq<char>, app_id: Seq<char>, option: Seq<char>, ak: int, ao: int, ac: int)
    requires
        apps_key(c) == Some(ak),
        find_char(c, '{', ak) == Some(ao),
        matching_brace_at(c, ao) == Some(ac),
        find_from(c.subrange(ao, ac), quoted(app_id), 0) is None,
    ensures
        set_launch_text(c, app_id, option) == Ok::<Seq<char>, VdfFault>(
            insert_at(c, ao + 1, app_block(app_id, escape_vdf_text(option))),
        ),
{
}

/// The characters of an added app block, by position.
proof fn lemma_app_block_chars(app_id: Seq<char>, esc: Seq<char>)
    ensures
        ({
            let b = app_block(app_id, esc);
            let l = app_id.len() as int;
            let e = esc.len() as int;
            &&& b.len() == 48 + l + e
            &&& b[0] == '\n'
            &&& forall|k: int| 1 <= k < 6 ==> b[k] == '\t'
            &&& b[6] == '"'
            &&& b.subrange(7, 7 + l) == app_id
            &&& b[7 + l] == '"'
            &&& b[8 + l] == '\n'
            &&& forall|k: int| 9 + l <= k < 14 + l ==> b[k] == '\t'
            &&& b[14 + l] == '{'
            &&& b[15 + l] == '\n'
            &&& forall|k: int| 16 + l <= k < 22 + l ==> b[k] == '\t'
            &&& b.subrange(22 + l, 37 + l) == quoted("LaunchOptions"@)
            &&& b[37 + l] == '\t'
            &&& b[38 + l] == '\t'
            &&& b[39 + l] == '"'
            &&& b.subrange(40 + l, 40 + l + e) == esc
            &&& b[40 + l + e] == '"'
            &&& b[41 + l + e] == '\n'
            &&& forall|k: int| 42 + l + e <= k < 47 + l + e ==> b[k] == '\t'
            &&& b[47 + l + e] == '}'
        }),
{
    reveal_strlit("\n\t\t\t\t\t\"");
    reveal_strlit("\"\n\t\t\t\t\t{\n\t\t\t\t\t\t\"LaunchOptions\"\t\t\"");
    reveal_strlit("\"\n\t\t\t\t\t}");
    reveal_strlit("LaunchOptions");
    let b = app_block(app_id, esc);
    let l = app_id.len() as int;
    let e = esc.len() as int;
    let p1 = "\n\t\t\t\t\t\""@;
    let p2 = "\"\n\t\t\t\t\t{\n\t\t\t\t\t\t\"LaunchOptions\"\t\t\""@;
    let p3 = "\"\n\t\t\t\t\t}"@;
    assert(b == p1 + app_id + p2 + esc + p3);
    assert(b.subrange(7, 7 + l) =~= app_id);
    assert(b.subrange(22 + l, 37 + l) =~= quoted("LaunchOptions"@));
    assert(b.subrange(40 + l, 40 + l + e) =~= esc);
}

/// The brace scanner reads the inside of an added app block, from the line after its `{` to
/// its `}`, as text that leaves its state as it was.
#[verifier::rlimit(40)]
#[verifier::spinoff_prover]
proof fn lemma_scan_inside_app_block(t: Seq<char>, b0: int, app_id: Seq<char>, option: Seq<char>, d: int)
    requires
        0 <= b0,
        b0 + app_block(app_id, escape_vdf_text(option)).len() <= t.len(),
        t.subrange(b0, b0 + app_block(app_id, escape_vdf_text(option)).len()) == app_block(
            app_id,
            escape_vdf_text(option),
        ),
    ensures
        ({
            let l = app_id.len() as int;
            let e = escape_vdf_text(option).len() as int;
            &&& scan_state(t, b0 + 15 + l, b0 + 47 + l + e, d, false, false) == Some((d, false, false))
            &&& string_end_scan(t, b0 + 40 + l, false) == Some(b0 + 40 + l + e)
            &&& t[b0 + 47 + l + e] == '}'
        }),
{
    let esc = escape_vdf_text(option);
    let b = app_block(app_id, esc);
    let l = app_id.len() as int;
    let e = esc.len() as int;
    lemma_app_block_chars(app_id, esc);
    assert forall|k: int| 0 <= k < b.len() implies #[trigger] t[b0 + k] == b[k] by {
        assert(t.subrange(b0, b0 + b.len())[k] == t[b0 + k]);
    }
    reveal_strlit("LaunchOptions");
    let lo = "LaunchOptions"@;
    assert(plain_text(lo));
    lemma_plain_text_escapes_to_itself(lo);
    assert(t[b0 + 22 + l] == b[22 + l]);
    assert(b[22 + l] == b.subrange(22 + l, 37 + l)[0]);
    assert(t.subrange(b0 + 23 + l, b0 + 36 + l) =~= lo) by {
        assert forall|k: int| 0 <= k < 13 implies t.subrange(b0 + 23 + l, b0 + 36 + l)[k] == lo[k] by {
            assert(t[b0 + 23 + l + k] == b[23 + l + k]);
            assert(b[23 + l + k] == b.subrange(22 + l, 37 + l)[k + 1]);
        }
    }
    assert(t[b0 + 36 + l] == b[36 + l]);
    assert(b[36 + l] == b.subrange(22 + l, 37 + l)[14]);
    assert forall|k: int| b0 + 15 + l <= k < b0 + 22 + l implies t[k] != '"' && t[k] != '{' && t[k] != '}' by {
        assert(t[b0 + (k - b0)] == b[k - b0]);
    }
    lemma_scan_over_blanks(t, b0 + 15 + l, b0 + 22 + l, d);
    lemma_scan_over_string(t, b0 + 22 + l, lo, d);
    lemma_scan_state_join(t, b0 + 15 + l, b0 + 22 + l, b0 + 37 + l, d, false, false);
    assert(t[b0 + 37 + l] == b[37 + l]);
    assert(t[b0 + 38 + l] == b[38 + l]);
    lemma_scan_over_blanks(t, b0 + 37 + l, b0 + 39 + l, d);
    lemma_scan_state_join(t, b0 + 15 + l, b0 + 37 + l, b0 + 39 + l, d, false, false);
    assert(t[b0 + 39 + l] == b[39 + l]);
    assert(t.subrange(b0 + 40 + l, b0 + 40 + l + e) =~= esc) by {
        assert forall|k: int| 0 <= k < e implies t.subrange(b0 + 40 + l, b0 + 40 + l + e)[k] == esc[k] by {
            assert(t[b0 + 40 + l + k] == b[40 + l + k]);
            assert(b[40 + l + k] == b.subrange(40 + l, 40 + l + e)[k]);
        }
    }
    assert(t[b0 + 40 + l + e] == b[40 + l + e]);
    lemma_scan_over_string(t, b0 + 39 + l, option, d);
    lemma_scan_state_join(t, b0 + 15 + l, b0 + 39 + l, b0 + 41 + l + e, d, false, false);
    assert forall|k: int| b0 + 41 + l + e <= k < b0 + 47 + l + e implies t[k] != '"' && t[k] != '{' && t[k]
        != '}' by {
        assert(t[b0 + (k - b0)] == b[k - b0]);
    }
    lemma_scan_over_blanks(t, b0 + 41 + l + e, b0 + 47 + l + e, d);
    lemma_scan_state_join(t, b0 + 15 + l, b0 + 41 + l + e, b0 + 47 + l + e, d, false, false);
    assert(t[b0 + 47 + l + e] == b[47 + l + e]);
}

proof fn lemma_open_brace_step(t: Seq<char>, p: int, d: int)
    requires
        0 <= p < t.len(),
        t[p] == '{',
    ensures
        scan_state(t, p, p + 1, d, false, false) == Some((d + 1, false, false)),
{
    assert(scan_state(t, p + 1, p + 1, d + 1, false, false) == Some((d + 1, false, false)));
}

proof fn lemma_close_brace_step(t: Seq<char>, p: int, d: int)
    requires
        0 <= p < t.len(),
        t[p] == '}',
        d != 1,
    ensures
        scan_state(t, p, p + 1, d, false, false) == Some((d - 1, false, false)),
{
    assert(scan_state(t, p + 1, p + 1, d - 1, false, false) == Some((d - 1, false, false)));
}

/// The brace scanner reads the head of an added app block, up to its `{`, as text that
/// leaves its state as it was.
#[verifier::rlimit(40)]
#[verifier::spinoff_prover]
proof fn lemma_scan_block_head(t: Seq<char>, b0: int, app_id: Seq<char>, option: Seq<char>, d: int)
    requires
        0 <= b0,
        plain_text(app_id),
        b0 + app_block(app_id, escape_vdf_text(option)).len() <= t.len(),
        t.subrange(b0, b0 + app_block(app_id, escape_vdf_text(option)).len()) == app_block(
            app_id,
            escape_vdf_text(option),
        ),
    ensures
        scan_state(t, b0, b0 + 14 + app_id.len(), d, false, false) == Some((d, false, false)),
        t[b0 + 14 + app_id.len()] == '{',
{
    let esc = escape_vdf_text(option);
    let b = app_block(app_id, esc);
    let l = app_id.len() as int;
    lemma_app_block_chars(app_id, esc);
    assert forall|k: int| 0 <= k < b.len() implies #[trigger] t[b0 + k] == b[k] by {
        assert(t.subrange(b0, b0 + b.len())[k] == t[b0 + k]);
    }
    assert forall|k: int| b0 <= k < b0 + 6 implies t[k] != '"' && t[k] != '{' && t[k] != '}' by {
        assert(t[b0 + (k - b0)] == b[k - b0]);
    }
    lemma_scan_over_blanks(t, b0, b0 + 6, d);
    lemma_plain_text_escapes_to_itself(app_id);
    assert(t[b0 + 6] == b[6]);
    assert(t.subrange(b0 + 7, b0 + 7 + l) =~= app_id) by {
        assert forall|k: int| 0 <= k < l implies t.subrange(b0 + 7, b0 + 7 + l)[k] == app_id[k] by {
            assert(t[b0 + 7 + k] == b[7 + k]);
            assert(b[7 + k] == b.subrange(7, 7 + l)[k]);
        }
    }
    assert(t[b0 + 7 + l] == b[7 + l]);
    lemma_scan_over_string(t, b0 + 6, app_id, d);
    lemma_scan_state_join(t, b0, b0 + 6, b0 + 8 + l, d, false, false);
    assert forall|k: int| b0 + 8 + l <= k < b0 + 14 + l implies t[k] != '"' && t[k] != '{' && t[k] != '}' by {
        assert(t[b0 + (k - b0)] == b[k - b0]);
    }
    lemma_scan_over_blanks(t, b0 + 8 + l, b0 + 14 + l, d);
    lemma_scan_state_join(t, b0, b0 + 8 + l, b0 + 14 + l, d, false, false);
    assert(t[b0 + 14 + l] == b[14 + l]);
}

proof fn lemma_section_after_block(c: Seq<char>, app_id: Seq<char>, option: Seq<char>, ao: int, ac: int)
    requires
        0 <= ao < c.len(),
        c[ao] == '{',
        matching_brace_at(c, ao) == Some(ac),
        plain_text(app_id),
    ensures
        matching_brace_at(insert_at(c, ao + 1, app_block(app_id, escape_vdf_text(option))), ao) == Some(
            ac + app_block(app_id, escape_vdf_text(option)).len(),
        ),
{
    let esc = escape_vdf_text(option);
    let b = app_block(app_id, esc);
    let l = app_id.len() as int;
    let e = esc.len() as int;
    let b0 = ao + 1;
    let t = insert_at(c, b0, b);
    lemma_app_block_chars(app_id, esc);
    assert(t.len() == c.len() + b.len());
    assert(t.subrange(b0, b0 + b.len()) =~= b);
    assert(t.skip(b0 + b.len()) =~= c.skip(b0));
    assert(t[ao] == c[ao]);
    lemma_open_brace_step(c, ao, 0);
    lemma_scan_state_compose(c, ao, b0, 0, false, false);
    lemma_open_brace_step(t, ao, 0);
    lemma_scan_block_head(t, b0, app_id, option, 1);
    lemma_scan_state_join(t, ao, b0, b0 + 14 + l, 0, false, false);
    lemma_open_brace_step(t, b0 + 14 + l, 1);
    lemma_scan_state_join(t, ao, b0 + 14 + l, b0 + 15 + l, 0, false, false);
    lemma_scan_inside_app_block(t, b0, app_id, option, 2);
    lemma_scan_state_join(t, ao, b0 + 15 + l, b0 + 47 + l + e, 0, false, false);
    lemma_close_brace_step(t, b0 + 47 + l + e, 2);
    lemma_scan_state_join(t, ao, b0 + 47 + l + e, b0 + 48 + l + e, 0, false, false);
    lemma_scan_state_compose(t, ao, b0 + 48 + l + e, 0, false, false);
    lemma_brace_scan_shift(c, t, b0, b0 + b.len(), 0, 1, false, false);
}

#[verifier::rlimit(40)]
proof fn lemma_block_reads_back(t: Seq<char>, app_id: Seq<char>, option: Seq<char>, ak: int, ao: int, ac2: int)
    requires
        apps_key(t) == Some(ak),
        find_char(t, '{', ak) == Some(ao),
        matching_brace_at(t, ao) == Some(ac2),
        0 <= ao,
        ao + 1 + app_block(app_id, escape_vdf_text(option)).len() <= ac2 <= t.len(),
        t[ao] == '{',
        t.subrange(ao + 1, ao + 1 + app_block(app_id, escape_vdf_text(option)).len()) == app_block(
            app_id,
            escape_vdf_text(option),
        ),
        plain_text(app_id),
        forall|k: int| 0 <= k < app_id.len() ==> app_id[k] != '{',
    ensures
        set_launch_text(t, app_id, option) == Ok::<Seq<char>, VdfFault>(t),
{
    reveal_strlit("LaunchOptions");
    let qid = quoted(app_id);
    let qlo = quoted("LaunchOptions"@);
    let esc = escape_vdf_text(option);
    let b = app_block(app_id, esc);
    let l = app_id.len() as int;
    let e = esc.len() as int;
    let b0 = ao + 1;
    lemma_app_block_chars(app_id, esc);
    assert forall|k: int| 0 <= k < b.len() implies #[trigger] t[b0 + k] == b[k] by {
        assert(t.subrange(b0, b0 + b.len())[k] == t[b0 + k]);
    }
    let sect2 = t.subrange(ao, ac2);
    assert(sect2.subrange(7, 7 + qid.len() as int) =~= qid) by {
        assert forall|k: int| 0 <= k < qid.len() implies sect2.subrange(7, 7 + qid.len() as int)[k] == qid[k] by {
            assert(sect2[7 + k] == t[b0 + (6 + k)]);
            if 1 <= k <= l {
                assert(b[6 + k] == b.subrange(7, 7 + l)[k - 1]);
            }
        }
    }
    assert forall|j: int| 0 <= j < 7 implies !crate::text::occurs_at(sect2, qid, j) by {
        assert(sect2.subrange(j, j + qid.len())[0] == sect2[j]);
        if j > 0 {
            assert(sect2[j] == t[b0 + (j - 1)]);
        }
    }
    lemma_find_from_first(sect2, qid, 0, 7);
    let tail2 = t.subrange(ao + 7, ac2);
    assert forall|j: int| 0 <= j < 8 + l implies tail2[j] != '{' by {
        assert(tail2[j] == t[b0 + (6 + j)]);
        if 1 <= j <= l {
            assert(b[6 + j] == b.subrange(7, 7 + l)[j - 1]);
        }
    }
    assert(tail2[8 + l] == t[b0 + (14 + l)]);
    lemma_find_char_first(tail2, '{', 0, 8 + l);
    let ap2 = b0 + 14 + l;
    let apc2 = b0 + 47 + l + e;
    lemma_open_brace_step(t, ap2, 0);
    lemma_scan_inside_app_block(t, b0, app_id, option, 1);
    lemma_scan_state_join(t, ap2, ap2 + 1, apc2, 0, false, false);
    lemma_scan_state_compose(t, ap2, apc2, 0, false, false);
    lemma_brace_scan_step(t, apc2, 1, false, false);
    assert(matching_brace_at(t, ap2) == Some(apc2));
    let blk2 = t.subrange(ap2, apc2);
    assert(blk2.subrange(8, 8 + qlo.len() as int) =~= qlo) by {
        assert forall|k: int| 0 <= k < qlo.len() implies blk2.subrange(8, 8 + qlo.len() as int)[k] == qlo[k] by {
            assert(blk2[8 + k] == t[b0 + (22 + l + k)]);
            assert(b[22 + l + k] == b.subrange(22 + l, 37 + l)[k]);
        }
    }
    assert forall|j: int| 0 <= j < 8 implies !crate::text::occurs_at(blk2, qlo, j) by {
        assert(blk2.subrange(j, j + qlo.len())[0] == blk2[j]);
        assert(blk2[j] == t[b0 + (14 + l + j)]);
    }
    lemma_find_from_first(blk2, qlo, 0, 8);
    let after2 = ap2 + 8 + qlo.len();
    let rest2 = t.subrange(after2, apc2);
    assert(rest2[0] == t[b0 + (37 + l)]);
    assert(rest2[1] == t[b0 + (38 + l)]);
    assert(rest2[2] == t[b0 + (39 + l)]);
    lemma_find_char_first(rest2, '"', 0, 2);
    lemma_replacing_value(t, app_id, option, ak, ao, ac2, 7, 8 + l, apc2, 8, 2, b0 + 40 + l + e);
    assert(t.subrange(b0 + 40 + l, b0 + 40 + l + e) =~= esc) by {
        assert forall|k: int| 0 <= k < e implies t.subrange(b0 + 40 + l, b0 + 40 + l + e)[k] == esc[k] by {
            assert(t[b0 + (40 + l + k)] == b[40 + l + k]);
            assert(b[40 + l + k] == b.subrange(40 + l, 40 + l + e)[k]);
        }
    }
    assert(t.take(b0 + 40 + l) + esc + t.skip(b0 + 40 + l + e) =~= t);
}

proof fn lemma_added_block_kept(c: Seq<char>, app_id: Seq<char>, option: Seq<char>)
    requires
        edit_keeps_apps_key(c, app_id, option),
        plain_text(app_id),
        forall|k: int| 0 <= k < app_id.len() ==> app_id[k] != '{',
        adds_app_block(c, app_id),
    ensures
        set_launch_text(c, app_id, option) matches Ok(t) && set_launch_text(t, app_id, option)
            == Ok::<Seq<char>, VdfFault>(t),
{
    let esc = escape_vdf_text(option);
    let b = app_block(app_id, esc);
    let ak = apps_key(c)->0;
    lemma_apps_key_bounds(c);
    let ao = find_char(c, '{', ak)->0;
    lemma_find_char(c, '{', ak);
    let ac = matching_brace_at(c, ao)->0;
    lemma_brace_scan_bound(c, ao, 0, false, false);
    lemma_adding_block(c, app_id, option, ak, ao, ac);
    let b0 = ao + 1;
    let t = insert_at(c, b0, b);
    assert(ak + 6 <= ao) by {
        if ao < ak + 6 {
            assert(c[ao] != '{');
        }
    }
    assert(t.len() == c.len() + b.len());
    assert(t.subrange(b0, b0 + b.len()) =~= b);
    assert(t.take(b0) =~= c.take(b0));
    assert(t[ao] == t.take(b0)[ao]);
    lemma_apps_key_kept(c, t, b0);
    lemma_find_char_prefix(c, t, '{', ak, ao, b0);
    lemma_open_brace_step(c, ao, 0);
    lemma_scan_state_compose(c, ao, b0, 0, false, false);
    lemma_brace_scan_bound(c, b0, 1, false, false);
    lemma_section_after_block(c, app_id, option, ao, ac);
    lemma_block_reads_back(t, app_id, option, ak, ao, ac + b.len());
}

/// The characters of an added `LaunchOptions` entry, by position.
proof fn lemma_entry_chars(esc: Seq<char>)
    ensures
        ({
            let x = launch_options_entry(esc);
            let e = esc.len() as int;
            &&& x.len() == 26 + e
            &&& x[0] == '\n'
            &&& forall|k: int| 1 <= k < 7 ==> x[k] == '\t'
            &&& x.subrange(7, 22) == quoted("LaunchOptions"@)
            &&& x[22] == '\t'
            &&& x[23] == '\t'
            &&& x[24] == '"'
            &&& x.subrange(25, 25 + e) == esc
            &&& x[25 + e] == '"'
        }),
{
    reveal_strlit("\n\t\t\t\t\t\t\"LaunchOptions\"\t\t\"");
    reveal_strlit("\"");
    reveal_strlit("LaunchOptions");
    let x = launch_options_entry(esc);
    let e = esc.len() as int;
    assert(x.subrange(7, 22) =~= quoted("LaunchOptions"@));
    assert(x.subrange(25, 25 + e) =~= esc);
}

/// The brace scanner reads an added `LaunchOptions` entry as text that leaves its state as
/// it was, and the entry's value as a string that ends at its closing quote.
#[verifier::rlimit(40)]
#[verifier::spinoff_prover]
proof fn lemma_scan_over_entry(t: Seq<char>, p: int, option: Seq<char>, d: int)
    requires
        0 <= p,
        p + launch_options_entry(escape_vdf_text(option)).len() < t.len(),
        t.subrange(p, p + launch_options_entry(escape_vdf_text(option)).len()) == launch_options_entry(
            escape_vdf_text(option),
        ),
    ensures
        ({
            let e = escape_vdf_text(option).len() as int;
            &&& scan_state(t, p, p + 26 + e, d, false, false) == Some((d, false, false))
            &&& string_end_scan(t, p + 25, false) == Some(p + 25 + e)
        }),
{
    let esc = escape_vdf_text(option);
    let x = launch_options_entry(esc);
    let e = esc.len() as int;
    lemma_entry_chars(esc);
    assert forall|k: int| 0 <= k < x.len() implies #[trigger] t[p + k] == x[k] by {
        assert(t.subrange(p, p + x.len())[k] == t[p + k]);
    }
    reveal_strlit("LaunchOptions");
    let lo = "LaunchOptions"@;
    assert(plain_text(lo));
    lemma_plain_text_escapes_to_itself(lo);
    assert forall|k: int| p <= k < p + 7 implies t[k] != '"' && t[k] != '{' && t[k] != '}' by {
        assert(t[p + (k - p)] == x[k - p]);
    }
    lemma_scan_over_blanks(t, p, p + 7, d);
    assert(t[p + 7] == x[7]);
    assert(x[7] == x.subrange(7, 22)[0]);
    assert(t.subrange(p + 8, p + 21) =~= lo) by {
        assert forall|k: int| 0 <= k < 13 implies t.subrange(p + 8, p + 21)[k] == lo[k] by {
            assert(t[p + (8 + k)] == x[8 + k]);
            assert(x[8 + k] == x.subrange(7, 22)[k + 1]);
        }
    }
    assert(t[p + 21] == x[21]);
    assert(x[21] == x.subrange(7, 22)[14]);
    lemma_scan_over_string(t, p + 7, lo, d);
    lemma_scan_state_join(t, p, p + 7, p + 22, d, false, false);
    assert(t[p + 22] == x[22]);
    assert(t[p + 23] == x[23]);
    lemma_scan_over_blanks(t, p + 22, p + 24, d);
    lemma_scan_state_join(t, p, p + 22, p + 24, d, false, false);
    assert(t[p + 24] == x[24]);
    assert(t.subrange(p + 25, p + 25 + e) =~= esc) by {
        assert forall|k: int| 0 <= k < e implies t.subrange(p + 25, p + 25 + e)[k] == esc[k] by {
            assert(t[p + (25 + k)] == x[25 + k]);
            assert(x[25 + k] == x.subrange(25, 25 + e)[k]);
        }
    }
    assert(t[p + 25 + e] == x[25 + e]);
    lemma_scan_over_string(t, p + 24, option, d);
    lemma_scan_state_join(t, p, p + 24, p + 26 + e, d, false, false);
}

/// Where setting a launch option adds an entry to an existing app block: the opening `{` of
/// the `apps` section and of the app's block.
pub open spec fn entry_spot(c: Seq<char>, app_id: Seq<char>) -> Option<(int, int)> {
    let apps_key = match quoted_key_at(c, "apps"@, 0) {
        Some(k) => Some(k),
        None => quoted_key_at(c, "Apps"@, 0),
    };
    match apps_key {
        None => None,
        Some(ak) => match find_char(c, '{', ak) {
            None => None,
            Some(ao) => match matching_brace_at(c, ao) {
                None => None,
                Some(ac) => match find_from(c.subrange(ao, ac), quoted(app_id), 0) {
                    None => None,
                    Some(r1) => match find_char(c.subrange(ao + r1, ac), '{', 0) {
                        None => None,
                        Some(r2) => {
                            let ap = ao + r1 + r2;
                            match matching_brace_at(c, ap) {
                                None => None,
                                Some(apc) => if find_from(c.subrange(ap, apc), quoted("LaunchOptions"@), 0) is None {
                                    Some((ao, ap))
                                } else {
                                    None
                                },
                            }
                        },
                    },
                },
            },
        },
    }
}

proof fn lemma_adding_entry(
    c: Seq<char>,
    app_id: Seq<char>,
    option: Seq<char>,
    ak: int,
    ao: int,
    ac: int,
    r1: int,
    r2: int,
    apc: int,
)
    requires
        apps_key(c) == Some(ak),
        find_char(c, '{', ak) == Some(ao),
        matching_brace_at(c, ao) == Some(ac),
        find_from(c.subrange(ao, ac), quoted(app_id), 0) == Some(r1),
        find_char(c.subrange(ao + r1, ac), '{', 0) == Some(r2),
        matching_brace_at(c, ao + r1 + r2) == Some(apc),
        find_from(c.subrange(ao + r1 + r2, apc), quoted("LaunchOptions"@), 0) is None,
    ensures
        set_launch_text(c, app_id, option) == Ok::<Seq<char>, VdfFault>(
            insert_at(c, ao + r1 + r2 + 1, launch_options_entry(escape_vdf_text(option))),
        ),
{
}

#[verifier::rlimit(40)]
proof fn lemma_entry_reads_back(
    t: Seq<char>,
    app_id: Seq<char>,
    option: Seq<char>,
    ak: int,
    ao: int,
    ac2: int,
    r1: int,
    r2: int,
    apc2: int,
)
    requires
        apps_key(t) == Some(ak),
        find_char(t, '{', ak) == Some(ao),
        matching_brace_at(t, ao) == Some(ac2),
        find_from(t.subrange(ao, ac2), quoted(app_id), 0) == Some(r1),
        find_char(t.subrange(ao + r1, ac2), '{', 0) == Some(r2),
        matching_brace_at(t, ao + r1 + r2) == Some(apc2),
        0 <= ao + r1 + r2,
        ao + r1 + r2 + 1 + launch_options_entry(escape_vdf_text(option)).len() <= apc2 < t.len(),
        t[ao + r1 + r2] == '{',
        t.subrange(ao + r1 + r2 + 1, ao + r1 + r2 + 1 + launch_options_entry(escape_vdf_text(option)).len())
            == launch_options_entry(escape_vdf_text(option)),
    ensures
        set_launch_text(t, app_id, option) == Ok::<Seq<char>, VdfFault>(t),
{
    reveal_strlit("LaunchOptions");
    let qlo = quoted("LaunchOptions"@);
    let esc = escape_vdf_text(option);
    let x = launch_options_entry(esc);
    let e = esc.len() as int;
    let ap = ao + r1 + r2;
    let p = ap + 1;
    lemma_entry_chars(esc);
    assert forall|k: int| 0 <= k < x.len() implies #[trigger] t[p + k] == x[k] by {
        assert(t.subrange(p, p + x.len())[k] == t[p + k]);
    }
    lemma_scan_over_entry(t, p, option, 0);
    let blk2 = t.subrange(ap, apc2);
    assert(blk2.subrange(8, 8 + qlo.len() as int) =~= qlo) by {
        assert forall|k: int| 0 <= k < qlo.len() implies blk2.subrange(8, 8 + qlo.len() as int)[k] == qlo[k] by {
            assert(blk2[8 + k] == t[p + (7 + k)]);
            assert(x[7 + k] == x.subrange(7, 22)[k]);
        }
    }
    assert forall|j: int| 0 <= j < 8 implies !crate::text::occurs_at(blk2, qlo, j) by {
        assert(blk2.subrange(j, j + qlo.len())[0] == blk2[j]);
        if j > 0 {
            assert(blk2[j] == t[p + (j - 1)]);
        }
    }
    lemma_find_from_first(blk2, qlo, 0, 8);
    let rest2 = t.subrange(ap + 8 + qlo.len(), apc2);
    assert(rest2[0] == t[p + 22]);
    assert(rest2[1] == t[p + 23]);
    assert(rest2[2] == t[p + 24]);
    lemma_find_char_first(rest2, '"', 0, 2);
    lemma_replacing_value(t, app_id, option, ak, ao, ac2, r1, r2, apc2, 8, 2, p + 25 + e);
    assert(t.subrange(p + 25, p + 25 + e) =~= esc) by {
        assert forall|k: int| 0 <= k < e implies t.subrange(p + 25, p + 25 + e)[k] == esc[k] by {
            assert(t[p + (25 + k)] == x[25 + k]);
            assert(x[25 + k] == x.subrange(25, 25 + e)[k]);
        }
    }
    assert(t.take(p + 25) + esc + t.skip(p + 25 + e) =~= t);
}

#[verifier::rlimit(40)]
proof fn lemma_added_entry_kept(c: Seq<char>, app_id: Seq<char>, option: Seq<char>)
    requires
        edit_keeps_apps_key(c, app_id, option),
        forall|k: int| 0 <= k < app_id.len() ==> app_id[k] != '{',
        entry_spot(c, app_id) matches Some(spot) && scanned_outside_strings(c, spot.0, spot.1),
    ensures
        set_launch_text(c, app_id, option) matches Ok(t) && set_launch_text(t, app_id, option)
            == Ok::<Seq<char>, VdfFault>(t),
{
    let qid = quoted(app_id);
    let esc = escape_vdf_text(option);
    let x = launch_options_entry(esc);
    let ak = apps_key(c)->0;
    lemma_apps_key_bounds(c);
    let ao = find_char(c, '{', ak)->0;
    lemma_find_char(c, '{', ak);
    let ac = matching_brace_at(c, ao)->0;
    lemma_brace_scan_bound(c, ao, 0, false, false);
    let sect = c.subrange(ao, ac);
    let r1 = find_from(sect, qid, 0)->0;
    lemma_find_from(sect, qid, 0);
    let app_key = ao + r1;
    let tail = c.subrange(app_key, ac);
    let r2 = find_char(tail, '{', 0)->0;
    lemma_find_char(tail, '{', 0);
    let ap = app_key + r2;
    let apc = matching_brace_at(c, ap)->0;
    lemma_brace_scan_bound(c, ap, 0, false, false);
    assert(entry_spot(c, app_id) == Some((ao, ap)));
    lemma_adding_entry(c, app_id, option, ak, ao, ac, r1, r2, apc);
    let p = ap + 1;
    let t = insert_at(c, p, x);
    lemma_entry_chars(esc);
    assert(ak + 6 <= ao) by {
        if ao < ak + 6 {
            assert(c[ao] != '{');
        }
    }
    assert(c[ap] == tail[r2]);
    assert(app_key + qid.len() <= ap) by {
        if ap < app_key + qid.len() {
            assert(c[ap] == sect.subrange(r1, r1 + qid.len())[ap - app_key]);
            assert(qid[ap - app_key] != '{');
        }
    }
    assert(t.len() == c.len() + x.len());
    assert(t.subrange(p, p + x.len()) =~= x);
    assert(t.take(p) =~= c.take(p));
    assert(t.take(ap) =~= c.take(ap));
    assert(t.skip(p + x.len()) =~= c.skip(p));
    assert(t[ap] == t.take(p)[ap]);
    // The section closes further on by the entry's length.
    let st = scan_state(c, ao, ap, 0, false, false)->0;
    let d = st.0;
    lemma_scan_state_extend(c, ao, ap, 0, false, false);
    lemma_scan_state_compose(c, ao, p, 0, false, false);
    lemma_brace_scan_bound(c, p, d + 1, false, false);
    lemma_scan_state_prefix(c, t, ao, ap, 0, false, false);
    lemma_scan_state_extend(t, ao, ap, 0, false, false);
    lemma_scan_over_entry(t, p, option, d + 1);
    lemma_scan_state_join(t, ao, p, p + x.len(), 0, false, false);
    lemma_scan_state_compose(t, ao, p + x.len(), 0, false, false);
    lemma_brace_scan_shift(c, t, p, p + x.len(), 0, d + 1, false, false);
    let ac2 = ac + x.len();
    assert(matching_brace_at(t, ao) == Some(ac2));
    // The app's block closes further on by the entry's length.
    lemma_open_brace_step(c, ap, 0);
    lemma_scan_state_compose(c, ap, p, 0, false, false);
    lemma_brace_scan_bound(c, p, 1, false, false);
    lemma_open_brace_step(t, ap, 0);
    lemma_scan_over_entry(t, p, option, 1);
    lemma_scan_state_join(t, ap, p, p + x.len(), 0, false, false);
    lemma_scan_state_compose(t, ap, p + x.len(), 0, false, false);
    lemma_brace_scan_shift(c, t, p, p + x.len(), 0, 1, false, false);
    let apc2 = apc + x.len();
    assert(matching_brace_at(t, ap) == Some(apc2));
    // Everything up to the block's `{` is where it was.
    lemma_apps_key_kept(c, t, p);
    lemma_find_char_prefix(c, t, '{', ak, ao, p);
    let sect2 = t.subrange(ao, ac2);
    assert(sect.take(p - ao) =~= sect2.take(p - ao));
    lemma_find_from_prefix(sect, sect2, qid, 0, r1, p - ao);
    let tail2 = t.subrange(app_key, ac2);
    assert(tail.take(p - app_key) =~= tail2.take(p - app_key));
    lemma_find_char_prefix(tail, tail2, '{', 0, r2, p - app_key);
    lemma_brace_scan_bound(t, ap, 0, false, false);
    lemma_entry_reads_back(t, app_id, option, ak, ao, ac2, r1, r2, apc2);
}

/// A successful edit either adds a block for the app, adds an entry to the app's block, or
/// replaces the app's value.
#[verifier::rlimit(40)]
proof fn lemma_edit_cases(c: Seq<char>, app_id: Seq<char>, option: Seq<char>)
    requires
        set_launch_text(c, app_id, option) is Ok,
    ensures
        adds_app_block(c, app_id) || entry_spot(c, app_id) is Some || value_spot(c, app_id) is Some,
{
}

/// Setting the same launch option a second time changes nothing. This is stated for an app
/// id that holds no `{`, `"` or `\` (a Steam app id is digits); for a section keyed `Apps`,
/// where the edit writes no `"apps"` (which the second edit would take for the section's
/// key); and where the brace scanner reads the places the first edit touches outside of any
/// string: the `{` of an existing app block that gains an entry, or the quote that opens a
/// value that is replaced.
pub proof fn lemma_setting_again_keeps_text(c: Seq<char>, app_id: Seq<char>, option: Seq<char>)
    requires
        edit_keeps_apps_key(c, app_id, option),
        plain_text(app_id),
        forall|k: int| 0 <= k < app_id.len() ==> app_id[k] != '{',
        set_launch_text(c, app_id, option) is Ok,
        value_spot(c, app_id) matches Some(spot) ==> scanned_outside_strings(c, spot.0, spot.2)
            && scanned_outside_strings(c, spot.1, spot.2),
        entry_spot(c, app_id) matches Some(spot) ==> scanned_outside_strings(c, spot.0, spot.1),
    ensures
        set_launch_text(c, app_id, option) matches Ok(t) && set_launch_text(t, app_id, option)
            == Ok::<Seq<char>, VdfFault>(t),
{
    lemma_edit_cases(c, app_id, option);
    if adds_app_block(c, app_id) {
        lemma_added_block_kept(c, app_id, option);
    } else if entry_spot(c, app_id) is Some {
        lemma_added_entry_kept(c, app_id, option);
    } else {
        lemma_replaced_value_kept(c, app_id, option);
    }
}

} // verus!
