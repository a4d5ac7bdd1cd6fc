//! Which compositor window a process belongs to: walking up the process
//! tree, one parent at a time, from a tmux client to the terminal window
//! that runs it. Who a process's parent is comes from the caller, which
//! reads it from the system; the walk is decided here.
use crate::json::{as_text, as_unsigned, get, items_of, member, parse_json, parsed, text_of, unsigned_of, Json, JsonView};
use vstd::prelude::*;

verus! {

/// How many parents a walk climbs at most.
pub const MAX_CLIMB: usize = 32;

/// The pid the compositor reports for the focused window, when it is a
/// real process id (it fits 32 bits and is not 0).
pub fn active_window_pid(reported: Option<u64>) -> (r: Option<u32>)
    ensures
        r == (match reported {
            Some(p) => if 0 < p <= u32::MAX {
                Some(p as u32)
            } else {
                None
            },
            None => None,
        }),
{
    match reported {
        Some(p) => if 0 < p && p <= 0xffff_ffffu64 {
            Some(p as u32)
        } else {
            None
        },
        None => None,
    }
}

/// The address listed for the window of `pid`: that of the last window
/// listed with this pid (pids too large for 32 bits never match); an empty
/// address counts as none.
pub open spec fn listed_address(windows: Seq<(u64, Seq<char>)>, pid: u32) -> Option<Seq<char>>
    decreases windows.len(),
{
    if windows.len() == 0 {
        None
    } else if windows.last().0 == pid as u64 {
        if windows.last().1.len() > 0 {
            Some(windows.last().1)
        } else {
            None
        }
    } else {
        listed_address(windows.drop_last(), pid)
    }
}

pub open spec fn windows_view(windows: Seq<(u64, String)>) -> Seq<(u64, Seq<char>)> {
    windows.map_values(|w: (u64, String)| (w.0, w.1@))
}

pub open spec fn opt_view(o: Option<String>) -> Option<Seq<char>> {
    match o {
        Some(s) => Some(s@),
        None => None,
    }
}

/// The address of the window listed for `pid` itself.
pub fn window_address(windows: &Vec<(u64, String)>, pid: u32) -> (r: Option<String>)
    ensures
        opt_view(r) == listed_address(windows_view(windows@), pid),
{
    let ghost wv = windows_view(windows@);
    let mut i = windows.len();
    assert(wv.subrange(0, i as int) =~= wv);
    while i > 0
        invariant
            i <= windows.len(),
            wv == windows_view(windows@),
            listed_address(wv, pid) == listed_address(wv.subrange(0, i as int), pid),
        decreases i,
    {
        let ghost pre = wv.subrange(0, i as int);
        assert(pre.drop_last() =~= wv.subrange(0, i - 1));
        assert(pre.last() == wv[i - 1]);
        let w = &windows[i - 1];
        if w.0 == pid as u64 {
            if !w.1.as_str().is_empty() {
                return Some(w.1.clone());
            }
            return None;
        }
        i -= 1;
    }
    assert(wv.subrange(0, 0) =~= Seq::<(u64, Seq<char>)>::empty());
    None
}

/// `chain` climbs the process tree: each pid after the first is an
/// answer `parent_of` can give for the one before, and none is 0.
pub open spec fn climbs<F: Fn(u32) -> Option<u32>>(parent_of: F, chain: Seq<u32>) -> bool {
    &&& chain.len() > 0
    &&& forall|i: int|
        0 <= i < chain.len() - 1 ==> call_ensures(parent_of, (chain[i],), Some(chain[i + 1])) && #[trigger] chain[i
            + 1] != 0
}

/// Where a climb may stop at `p`: `parent_of` may answer that it has no
/// parent, or that its parent is 0.
pub open spec fn climb_ends<F: Fn(u32) -> Option<u32>>(parent_of: F, p: u32) -> bool {
    call_ensures(parent_of, (p,), None) || call_ensures(parent_of, (p,), Some(0u32))
}

/// No process of `chain` has a listed window.
pub open spec fn none_listed(windows: Seq<(u64, Seq<char>)>, chain: Seq<u32>) -> bool {
    forall|i: int| 0 <= i < chain.len() ==> listed_address(windows, #[trigger] chain[i]) is None
}

/// The address of the window that runs `pid`: the window listed for `pid`,
/// else for its parent, and so on up the tree, for at most `MAX_CLIMB`
/// processes; none once a process has no parent, or its parent is 0.
pub fn address_for_pid<F: Fn(u32) -> Option<u32>>(windows: &Vec<(u64, String)>, pid: u32, parent_of: F) -> (r:
    Option<String>)
    requires
        forall|p: u32| call_requires(parent_of, (p,)),
    ensures
        listed_address(windows_view(windows@), pid) is Some ==> opt_view(r) == listed_address(
            windows_view(windows@),
            pid,
        ),
        r matches Some(a) ==> exists|chain: Seq<u32>|
            {
                &&& chain[0] == pid
                &&& chain.len() <= MAX_CLIMB
                &&& #[trigger] climbs(parent_of, chain)
                &&& none_listed(windows_view(windows@), chain.drop_last())
                &&& listed_address(windows_view(windows@), chain.last()) == Some(a@)
            },
        r is None ==> exists|chain: Seq<u32>|
            {
                &&& chain[0] == pid
                &&& chain.len() <= MAX_CLIMB
                &&& #[trigger] climbs(parent_of, chain)
                &&& none_listed(windows_view(windows@), chain)
                &&& (chain.len() == MAX_CLIMB || climb_ends(parent_of, chain.last()))
            },
{
    let ghost wv = windows_view(windows@);
    let mut current = pid;
    let mut step: usize = 0;
    let ghost mut chain: Seq<u32> = seq![pid];
    while step < MAX_CLIMB
        invariant
            step <= MAX_CLIMB,
            wv == windows_view(windows@),
            chain.len() == step + 1,
            chain[0] == pid,
            chain.last() == current,
            climbs(parent_of, chain),
            none_listed(wv, chain.drop_last()),
            step == 0 ==> current == pid,
            listed_address(wv, pid) is Some ==> step == 0,
            forall|p: u32| call_requires(parent_of, (p,)),
        decreases MAX_CLIMB - step,
    {
        if let Some(a) = window_address(windows, current) {
            proof {
                assert(climbs(parent_of, chain));
            }
            return Some(a);
        }
        match parent_of(current) {
            None => {
                proof {
                    assert(none_listed(wv, chain)) by {
                        assert forall|i: int| 0 <= i < chain.len() implies listed_address(wv, #[trigger] chain[i])
                            is None by {
                            if i < chain.len() - 1 {
                                assert(chain[i] == chain.drop_last()[i]);
                            }
                        }
                    }
                    assert(climbs(parent_of, chain));
                }
                return None;
            },
            Some(p) => {
                if p == 0 {
                    proof {
                        assert(none_listed(wv, chain)) by {
                            assert forall|i: int| 0 <= i < chain.len() implies listed_address(wv, #[trigger] chain[i])
                                is None by {
                                if i < chain.len() - 1 {
                                    assert(chain[i] == chain.drop_last()[i]);
                                }
                            }
                        }
                        assert(climbs(parent_of, chain));
                    }
                    return None;
                }
                proof {
                    let c0 = chain;
                    chain = chain.push(p);
                    assert forall|i: int| 0 <= i < chain.len() - 1 implies call_ensures(
                        parent_of,
                        (chain[i],),
                        Some(chain[i + 1]),
                    ) && #[trigger] chain[i + 1] != 0 by {
                        if i < c0.len() - 1 {
                            assert(chain[i] == c0[i] && chain[i + 1] == c0[i + 1]);
                        }
                    }
                    assert(chain.drop_last() =~= c0);
                    assert forall|i: int| 0 <= i < c0.len() implies listed_address(wv, #[trigger] c0[i]) is None by {
                        if i < c0.len() - 1 {
                            assert(c0[i] == c0.drop_last()[i]);
                        }
                    }
                }
                current = p;
            },
        }
        step += 1;
    }
    proof {
        let w = chain.drop_last();
        assert(w[0] == pid);
        assert forall|i: int| 0 <= i < w.len() - 1 implies call_ensures(parent_of, (w[i],), Some(w[i + 1]))
            && #[trigger] w[i + 1] != 0 by {
            assert(w[i] == chain[i] && w[i + 1] == chain[i + 1]);
        }
        assert(climbs(parent_of, w));
    }
    None
}

/// Whether `current` runs under `ancestor`: it is `ancestor`, or climbing
/// its parents (at most `MAX_CLIMB` of them) reaches it; the climb stops at
/// a process without a parent, or whose parent is 0 or itself.
pub fn is_descendant<F: Fn(u32) -> Option<u32>>(current: u32, ancestor: u32, parent_of: F) -> (r: bool)
    requires
        forall|p: u32| call_requires(parent_of, (p,)),
    ensures
        current == ancestor ==> r,
        r ==> exists|chain: Seq<u32>|
            {
                &&& chain[0] == current
                &&& chain.last() == ancestor
                &&& chain.len() <= MAX_CLIMB + 1
                &&& #[trigger] climbs(parent_of, chain)
                &&& forall|i: int| 0 <= i < chain.len() - 1 ==> #[trigger] chain[i + 1] != chain[i]
            },
        !r ==> exists|chain: Seq<u32>|
            {
                &&& chain[0] == current
                &&& chain.len() <= MAX_CLIMB + 1
                &&& #[trigger] climbs(parent_of, chain)
                &&& forall|i: int| 0 <= i < chain.len() ==> #[trigger] chain[i] != ancestor
                &&& (chain.len() == MAX_CLIMB + 1 || climb_ends(parent_of, chain.last()) || call_ensures(
                    parent_of,
                    (chain.last(),),
                    Some(chain.last()),
                ))
            },
{
    let mut cur = current;
    let mut step: usize = 0;
    let ghost mut chain: Seq<u32> = seq![current];
    while step < MAX_CLIMB
        invariant
            step <= MAX_CLIMB,
            chain.len() == step + 1,
            chain[0] == current,
            chain.last() == cur,
            climbs(parent_of, chain),
            forall|i: int| 0 <= i < chain.len() - 1 ==> #[trigger] chain[i + 1] != chain[i],
            step == 0 ==> cur == current,
            current == ancestor ==> step == 0,
            forall|i: int| 0 <= i < chain.len() - 1 ==> #[trigger] chain[i] != ancestor,
            forall|p: u32| call_requires(parent_of, (p,)),
        decreases MAX_CLIMB - step,
    {
        if cur == ancestor {
            proof {
                assert(climbs(parent_of, chain));
            }
            return true;
        }
        let Some(parent) = parent_of(cur) else {
            proof {
                assert(forall|i: int| 0 <= i < chain.len() ==> #[trigger] chain[i] != ancestor);
                assert(climbs(parent_of, chain));
            }
            return false;
        };
        if parent == 0 || parent == cur {
            proof {
                assert(forall|i: int| 0 <= i < chain.len() ==> #[trigger] chain[i] != ancestor);
                assert(climbs(parent_of, chain));
            }
            return false;
        }
        proof {
            let c0 = chain;
            chain = chain.push(parent);
            assert forall|i: int| 0 <= i < chain.len() - 1 implies call_ensures(
                parent_of,
                (chain[i],),
                Some(chain[i + 1]),
            ) && #[trigger] chain[i + 1] != 0 by {
                if i < c0.len() - 1 {
                    assert(chain[i] == c0[i] && chain[i + 1] == c0[i + 1]);
                }
            }
            assert forall|i: int| 0 <= i < chain.len() - 1 implies #[trigger] chain[i + 1] != chain[i] by {
                if i < c0.len() - 1 {
                    assert(chain[i] == c0[i] && chain[i + 1] == c0[i + 1]);
                }
            }
        }
        cur = parent;
        step += 1;
    }
    proof {
        assert(climbs(parent_of, chain));
        if cur != ancestor {
            assert(forall|i: int| 0 <= i < chain.len() ==> #[trigger] chain[i] != ancestor);
        }
    }
    cur == ancestor
}

/// One client of the compositor's `clients -j` answer: its `pid` and
/// `address`, when it has both.
pub open spec fn client_of(v: JsonView) -> Option<(u64, Seq<char>)> {
    match (unsigned_of(member(Some(v), "pid"@)), text_of(member(Some(v), "address"@))) {
        (Some(p), Some(a)) => Some((p, a)),
        _ => None,
    }
}

/// The clients that have both, in order.
pub open spec fn kept_clients(vs: Seq<JsonView>) -> Seq<(u64, Seq<char>)>
    decreases vs.len(),
{
    if vs.len() == 0 {
        seq![]
    } else {
        let k = kept_clients(vs.drop_last());
        match client_of(vs.last()) {
            Some(c) => k.push(c),
            None => k,
        }
    }
}

/// The windows of a `clients -j` answer: none when it is no JSON array.
pub open spec fn windows_of(raw: Seq<u8>) -> Option<Seq<(u64, Seq<char>)>> {
    match items_of(parsed(raw)) {
        Some(vs) => Some(kept_clients(vs)),
        None => None,
    }
}

/// The windows the compositor lists in its `clients -j` answer.
pub fn client_windows(raw: &[u8]) -> (r: Option<Vec<(u64, String)>>)
    ensures
        match r {
            Some(v) => windows_of(raw@) == Some(windows_view(v@)),
            None => windows_of(raw@) is None,
        },
{
    let r0 = parse_json(raw);
    let ghost g0 = r0;
    let all = match r0 {
        Ok(Json::Array(a)) => a,
        _ => return None,
    };
    let ghost av = all@.map_values(|x: Json| x@);
    assert(items_of(parsed(raw@)) == Some(av)) by {
        assert(g0->Ok_0@ == parsed(raw@)->0);
        assert(av =~= g0->Ok_0@->Array_0);
    }
    let mut out: Vec<(u64, String)> = Vec::new();
    let mut i: usize = 0;
    while i < all.len()
        invariant
            i <= all@.len(),
            av == all@.map_values(|x: Json| x@),
            windows_view(out@) == kept_clients(av.subrange(0, i as int)),
        decreases all@.len() - i,
    {
        let c = &all[i];
        assert(av.subrange(0, i + 1).drop_last() =~= av.subrange(0, i as int));
        assert(av.subrange(0, i + 1).last() == c@);
        let pid = as_unsigned(get(c, "pid"));
        let addr = as_text(get(c, "address"));
        match (pid, addr) {
            (Some(p), Some(a)) => {
                let ghost before = windows_view(out@);
                out.push((p, a.clone()));
                assert(windows_view(out@) =~= before.push((p, a@)));
            },
            _ => {},
        }
        i += 1;
    }
    assert(av.subrange(0, av.len() as int) =~= av);
    Some(out)
}

/// The address of the window that runs `pid`, from the compositor's
/// `clients -j` answer (see `address_for_pid`): none when the answer is
/// no JSON array.
pub fn address_for_output<F: Fn(u32) -> Option<u32>>(raw: &[u8], pid: u32, parent_of: F) -> (r: Option<String>)
    requires
        forall|p: u32| call_requires(parent_of, (p,)),
    ensures
        windows_of(raw@) is None ==> r is None,
        windows_of(raw@) matches Some(ws) ==> {
            &&& listed_address(ws, pid) is Some ==> opt_view(r) == listed_address(ws, pid)
            &&& r matches Some(a) ==> exists|chain: Seq<u32>|
                {
                    &&& chain[0] == pid
                    &&& chain.len() <= MAX_CLIMB
                    &&& #[trigger] climbs(parent_of, chain)
                    &&& none_listed(ws, chain.drop_last())
                    &&& listed_address(ws, chain.last()) == Some(a@)
                }
            &&& r is None ==> exists|chain: Seq<u32>|
                {
                    &&& chain[0] == pid
                    &&& chain.len() <= MAX_CLIMB
                    &&& #[trigger] climbs(parent_of, chain)
                    &&& none_listed(ws, chain)
                    &&& (chain.len() == MAX_CLIMB || climb_ends(parent_of, chain.last()))
                }
        },
{
    match client_windows(raw) {
        Some(ws) => address_for_pid(&ws, pid, parent_of),
        None => None,
    }
}

/// The pid of the focused window, from the compositor's `activewindow -j`
/// answer (see `active_window_pid`).
pub fn active_pid_of_output(raw: &[u8]) -> (r: Option<u32>)
    ensures
        r == (match unsigned_of(member(parsed(raw@), "pid"@)) {
            Some(p) => if 0 < p <= u32::MAX {
                Some(p as u32)
            } else {
                None
            },
            None => None,
        }),
{
    match parse_json(raw) {
        Ok(j) => active_window_pid(as_unsigned(get(&j, "pid"))),
        Err(_) => active_window_pid(None),
    }
}

} // verus!
