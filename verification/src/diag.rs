//! Diagnostics: where the helper writes its log, and which Unity player log is the newest.
use vstd::prelude::*;
use crate::num::{push_signed, signed_decimal};
use crate::path::file_name;
use crate::text::{chars_of, push_str, same_chars, text_result};

verus! {

/// The log the helper writes inside the process `pid`.
pub open spec fn helper_log(pid: i32) -> Seq<char> {
    "/tmp/.zyringe/helper-"@ + signed_decimal(pid as int) + ".log"@
}

/// The path of the helper's log for the process `pid`.
pub fn helper_log_path(pid: i32) -> (r: String)
    ensures
        r@ == helper_log(pid),
{
    let mut s = String::new();
    push_str(&mut s, "/tmp/.zyringe/helper-");
    push_signed(&mut s, pid as i64);
    push_str(&mut s, ".log");
    s
}

/// The helper log to open for `pid`, or why there is none yet.
pub open spec fn helper_log_choice(pid: i32, exists: bool) -> Result<Seq<char>, Seq<char>> {
    if exists {
        Ok(helper_log(pid))
    } else {
        Err("No helper log yet at "@ + helper_log(pid))
    }
}

/// Decides which helper log to open for `pid`, given whether it exists; the caller opens
/// the path it returns.
pub fn open_helper_log(pid: i32, exists: bool) -> (r: Result<String, String>)
    ensures
        text_result(r) == helper_log_choice(pid, exists),
{
    let p = helper_log_path(pid);
    if exists {
        Ok(p)
    } else {
        let mut s = String::new();
        push_str(&mut s, "No helper log yet at ");
        push_str(&mut s, p.as_str());
        Err(s)
    }
}

/// The player log to open, or why there is none.
pub open spec fn player_log_choice(newest: Option<Seq<char>>) -> Result<Seq<char>, Seq<char>> {
    match newest {
        Some(p) => Ok(p),
        None => Err("No Unity Player.log found under ~/.config/unity3d"@),
    }
}

/// Decides which player log to open, given the newest one found; the caller opens the path
/// it returns.
pub fn open_player_log(newest: Option<String>) -> (r: Result<String, String>)
    ensures
        text_result(r) == player_log_choice(
            match newest {
                Some(p) => Some(p@),
                None => None,
            },
        ),
{
    match newest {
        Some(p) => Ok(p),
        None => Err(String::from_str("No Unity Player.log found under ~/.config/unity3d")),
    }
}

/// Whether a path names a Unity player log (`Player.log`).
pub fn is_player_log(path: &str) -> (r: bool)
    ensures
        r == (file_name(path@) == Some("Player.log"@)),
{
    let v = chars_of(path);
    match crate::path::file_name_bounds(&v) {
        Some((a, b)) => same_chars(&v[a..b], &chars_of("Player.log")),
        None => false,
    }
}

/// A modification time as `(seconds, nanoseconds)`: whether `a` is later than `b`.
pub open spec fn later(a: (u64, u32), b: (u64, u32)) -> bool {
    a.0 > b.0 || (a.0 == b.0 && a.1 > b.1)
}

/// The index of the newest of `times`: the first one no other is later than.
pub open spec fn newest_index(times: Seq<(u64, u32)>) -> Option<int>
    decreases times.len(),
{
    if times.len() == 0 {
        None
    } else {
        match newest_index(times.drop_last()) {
            Some(i) => if later(times.last(), times[i]) {
                Some(times.len() - 1)
            } else {
                Some(i)
            },
            None => Some(times.len() - 1),
        }
    }
}

/// The path of the newest log among candidates `(seconds, nanoseconds, path)`, in the order
/// they were found; among equally new ones the first wins.
pub fn pick_newest(cands: &Vec<(u64, u32, String)>) -> (r: Option<String>)
    ensures
        match newest_index(cands@.map_values(|c: (u64, u32, String)| (c.0, c.1))) {
            Some(i) => r is Some && r->0@ == cands@[i].2@,
            None => r is None,
        },
{
    let ghost times = cands@.map_values(|c: (u64, u32, String)| (c.0, c.1));
    let mut best: Option<usize> = None;
    let mut i: usize = 0;
    while i < cands.len()
        invariant
            i <= cands@.len(),
            times == cands@.map_values(|c: (u64, u32, String)| (c.0, c.1)),
            match best {
                Some(b) => newest_index(times.take(i as int)) == Some(b as int) && b < i,
                None => newest_index(times.take(i as int)) is None,
            },
        decreases cands@.len() - i,
    {
        assert(times.take(i + 1).drop_last() =~= times.take(i as int));
        let (s, n, _) = &cands[i];
        best = match best {
            Some(b) => {
                let (bs, bn, _) = &cands[b];
                if *s > *bs || (*s == *bs && *n > *bn) {
                    Some(i)
                } else {
                    Some(b)
                }
            },
            None => Some(i),
        };
        i = i + 1;
    }
    assert(times.take(cands@.len() as int) =~= times);
    match best {
        Some(b) => {
            let p = &cands[b].2;
            Some(p.clone())
        },
        None => None,
    }
}

} // verus!
