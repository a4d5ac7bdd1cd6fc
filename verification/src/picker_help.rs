//! The help screen inside the picker: listing the config entries,
//! filtering them, and editing one value.
use crate::config::{Config, key_of, render, strings_view};
use crate::help::{
    BlockView, TEMPLATE, blocks_from, filter_words, key_at, key_matches, key_matches_of, line_key,
    parse_blocks, selectable_indices, selectable_positions, template_lines, words_of, is_selectable,
    is_selectable_line, RawMap, display_lines, filtered_visible_lines, visible_lines, help_line,
};
use crate::model::{FeedbackEntry, FeedbackType, feedback_views};
use crate::picker::{Mode, Picker, picker_ok};
use crate::picker_nav::{help_filter, help_indices, lines_matching, nones};
use crate::text::{chars_of, lines, lowercase, string_of, to_lowercase, trim, trim_chars};
use vstd::prelude::*;

verus! {

/// The help screen filters when its filter is not blank.
pub open spec fn help_filtered(filter: Seq<char>) -> bool {
    trim(filter).len() > 0
}

/// Rows of the filtered help list for the blocks `bs`: each block with a
/// matching key shows its header lines (`None`) and its matching entries
/// (numbered from `ord` on); also the count of entries shown.
pub open spec fn block_rows(ls: Seq<Seq<char>>, bs: Seq<BlockView>, ws: Seq<Seq<char>>) -> (Seq<Option<usize>>, nat)
    decreases bs.len(),
{
    if bs.len() == 0 {
        (seq![], 0)
    } else {
        let (r, ord) = block_rows(ls, bs.drop_last(), ws);
        let b = bs.last();
        let m = lines_matching(ls, b.entries, ws);
        if m.len() == 0 {
            (r, ord)
        } else {
            (
                r + nones(b.header.len()) + Seq::new(m.len(), |k: int| Some((ord + k) as usize)),
                ord + m.len(),
            )
        }
    }
}

/// Rows of the unfiltered help list: every template line, entries
/// numbered in order, other lines `None`; also the count of entries.
pub open spec fn plain_rows(ls: Seq<Seq<char>>) -> (Seq<Option<usize>>, nat)
    decreases ls.len(),
{
    if ls.len() == 0 {
        (seq![], 0)
    } else {
        let (r, n) = plain_rows(ls.drop_last());
        if is_selectable(ls.last()) {
            (r.push(Some(n as usize)), n + 1)
        } else {
            (r.push(None), n)
        }
    }
}

/// The rows of the help list for `filter`.
pub open spec fn help_rows_of(filter: Seq<char>) -> Seq<Option<usize>> {
    let ls = lines(TEMPLATE@);
    if help_filtered(filter) {
        block_rows(ls, blocks_from(ls, 0), filter_words(filter)).0
    } else {
        plain_rows(ls).0
    }
}

/// The first row from `from` on that holds entry `c`, or 0 when none
/// does.
pub open spec fn first_row(rows: Seq<Option<usize>>, c: usize, from: int) -> int
    decreases rows.len() - from,
{
    if from < 0 || from >= rows.len() {
        0
    } else if rows[from] == Some(c) {
        from
    } else {
        first_row(rows, c, from + 1)
    }
}

/// Cursor clamped into a list of `len` entries (both at zero for an empty
/// list).
pub open spec fn clamped(old: Picker, new: Picker, len: nat) -> bool {
    if len == 0 {
        new == (Picker { help_cursor: 0, help_scroll: 0, ..old })
    } else if old.help_cursor >= len {
        new == (Picker { help_cursor: (len - 1) as usize, ..old })
    } else {
        new == old
    }
}

/// The help cursor moved by `amount` with wrap-around.
pub open spec fn help_moved(old: Picker, new: Picker, amount: i32) -> bool {
    let len = help_indices(help_filter(old)).len();
    if len == 0 || amount == 0 {
        new == old
    } else {
        new == (Picker {
            help_cursor: ((old.help_cursor as int + amount) % (len as int)) as usize,
            mouse_hover: false,
            ..old
        })
    }
}

proof fn lemma_selectable_positions_bound(ls: Seq<Seq<char>>)
    requires
        ls.len() <= usize::MAX,
    ensures
        forall|k: int|
            0 <= k < selectable_positions(ls).len() ==> (#[trigger] selectable_positions(ls)[k]) < ls.len(),
    decreases ls.len(),
{
    if ls.len() > 0 {
        lemma_selectable_positions_bound(ls.drop_last());
        let r = selectable_positions(ls.drop_last());
        if is_selectable(ls.last()) {
            assert forall|k: int| 0 <= k < r.push((ls.len() - 1) as usize).len() implies (#[trigger] r.push(
                (ls.len() - 1) as usize,
            )[k]) < ls.len() by {
                if k < r.len() {
                    assert(r.push((ls.len() - 1) as usize)[k] == r[k]);
                }
            }
        }
    }
}

proof fn lemma_lines_matching_sub(ls: Seq<Seq<char>>, idxs: Seq<usize>, ws: Seq<Seq<char>>, bound: int)
    requires
        forall|k: int| 0 <= k < idxs.len() ==> (#[trigger] idxs[k]) < bound,
    ensures
        forall|k: int| 0 <= k < lines_matching(ls, idxs, ws).len() ==> (#[trigger] lines_matching(ls, idxs, ws)[k]) < bound,
    decreases idxs.len(),
{
    if idxs.len() > 0 {
        let d = idxs.drop_last();
        assert forall|k: int| 0 <= k < d.len() implies (#[trigger] d[k]) < bound by {
            assert(d[k] == idxs[k]);
        }
        lemma_lines_matching_sub(ls, d, ws, bound);
        let r = lines_matching(ls, d, ws);
        assert(idxs.last() == idxs[idxs.len() - 1]);
        assert forall|k: int| 0 <= k < r.push(idxs.last()).len() implies (#[trigger] r.push(idxs.last())[k]) < bound by {
            if k < r.len() {
                assert(r.push(idxs.last())[k] == r[k]);
            }
        }
    }
}

/// The entry lines of `idxs` whose key matches `ws`.
fn matching_lines(ls: &Vec<String>, idxs: &Vec<usize>, ws: &Vec<Vec<char>>) -> (r: Vec<usize>)
    requires
        forall|k: int| 0 <= k < idxs@.len() ==> (#[trigger] idxs@[k]) < ls@.len(),
    ensures
        r@ == lines_matching(strings_view(ls@), idxs@, ws@.map_values(|w: Vec<char>| w@)),
{
    let ghost lv = strings_view(ls@);
    let ghost wv = ws@.map_values(|w: Vec<char>| w@);
    let mut out: Vec<usize> = Vec::new();
    let mut i: usize = 0;
    assert(idxs@.subrange(0, 0) =~= Seq::<usize>::empty());
    while i < idxs.len()
        invariant
            i <= idxs@.len(),
            lv == strings_view(ls@),
            wv == ws@.map_values(|w: Vec<char>| w@),
            forall|k: int| 0 <= k < idxs@.len() ==> (#[trigger] idxs@[k]) < ls@.len(),
            out@ == lines_matching(lv, idxs@.subrange(0, i as int), wv),
        decreases idxs@.len() - i,
    {
        let li = idxs[i];
        assert(idxs@.subrange(0, i + 1).drop_last() =~= idxs@.subrange(0, i as int));
        assert(idxs@.subrange(0, i + 1).last() == li);
        assert(lv[li as int] == ls@[li as int]@);
        match key_at(ls.as_slice(), li) {
            Some(k) => {
                if key_matches_of(&k, ws) {
                    out.push(li);
                }
            },
            None => {},
        }
        i += 1;
    }
    assert(idxs@.subrange(0, idxs@.len() as int) =~= idxs@);
    out
}

impl Picker {
    /// The help screen's filter.
    pub fn help_filter_str(&self) -> (r: &str)
        ensures
            r@ == help_filter(*self),
    {
        if self.mode == Mode::HelpEditing {
            self.help_stashed_filter.as_str()
        } else {
            self.input.as_str()
        }
    }

    pub fn help_is_filtered(&self) -> (r: bool)
        ensures
            r == help_filtered(help_filter(*self)),
    {
        trim_chars(&chars_of(self.help_filter_str())).len() > 0
    }

    /// The entry lines the help screen lists (see `help_indices`).
    pub fn help_filtered_line_indices(&self) -> (r: Vec<usize>)
        ensures
            r@ == help_indices(help_filter(*self)),
            forall|k: int| 0 <= k < r@.len() ==> (#[trigger] r@[k]) < lines(TEMPLATE@).len(),
    {
        let ls = template_lines();
        let ghost lv = lines(TEMPLATE@);
        assert(strings_view(ls@) == lv);
        let idxs = selectable_indices(ls.as_slice());
        let nl = ls.len();
        assert(lv.len() == nl);
        proof {
            lemma_selectable_positions_bound(lv);
        }
        let t = string_of(&trim_chars(&chars_of(self.help_filter_str())));
        let f = to_lowercase(t.as_str());
        if f.as_str().is_empty() {
            return idxs;
        }
        let ws = words_of(&chars_of(f.as_str()));
        let r = matching_lines(&ls, &idxs, &ws);
        proof {
            lemma_lines_matching_sub(lv, idxs@, filter_words(help_filter(*self)), lv.len() as int);
        }
        r
    }

    pub fn help_filtered_count(&self) -> (r: usize)
        ensures
            r == help_indices(help_filter(*self)).len(),
    {
        self.help_filtered_line_indices().len()
    }

    /// The template line the help cursor is on, if any.
    pub fn help_current_filtered_line_idx(&self) -> (r: Option<usize>)
        ensures
            ({
                let h = help_indices(help_filter(*self));
                r == (if self.help_cursor < h.len() {
                    Some(h[self.help_cursor as int])
                } else {
                    None
                })
            }),
    {
        let f = self.help_filtered_line_indices();
        if self.help_cursor < f.len() {
            Some(f[self.help_cursor])
        } else {
            None
        }
    }

    /// Keeps the help cursor inside the list.
    pub fn help_clamp_cursor(&mut self)
        ensures
            clamped(*old(self), *final(self), help_indices(help_filter(*old(self))).len()),
    {
        let len = self.help_filtered_line_indices().len();
        if len == 0 {
            self.help_cursor = 0;
            self.help_scroll = 0;
        } else if self.help_cursor >= len {
            self.help_cursor = len - 1;
        }
    }

    /// Moves the help cursor by `amount` entries, wrapping around.
    pub fn help_move_cursor(&mut self, amount: i32)
        requires
            old(self).help_cursor <= i32::MAX,
            i32::MIN <= old(self).help_cursor + amount <= i32::MAX,
        ensures
            help_moved(*old(self), *final(self), amount),
    {
        let len = self.help_filtered_line_indices().len();
        if len == 0 || amount == 0 {
            return;
        }
        self.mouse_hover = false;
        let x: i64 = self.help_cursor as i64 + amount as i64;
        let n: u64 = len as u64;
        let r: u64 = if x >= 0 {
            (x as u64) % n
        } else {
            let m = ((-x) as u64) % n;
            if m == 0 {
                0
            } else {
                n - m
            }
        };
        proof {
            lemma_euclid_mod(x as int, n as int);
        }
        self.help_cursor = r as usize;
    }

    /// The rows of the help list (see `help_rows_of`).
    pub fn help_rows(&self) -> (r: Vec<Option<usize>>)
        ensures
            r@ == help_rows_of(help_filter(*self)),
    {
        let ls = template_lines();
        let ghost lv = lines(TEMPLATE@);
        if self.help_is_filtered() {
            let blocks = parse_blocks(ls.as_slice());
            let ghost bs = blocks_from(lv, 0);
            let t = string_of(&trim_chars(&chars_of(self.help_filter_str())));
            let f = to_lowercase(t.as_str());
            let ws = words_of(&chars_of(f.as_str()));
            let ghost wv = ws@.map_values(|w: Vec<char>| w@);
            assert(wv == filter_words(help_filter(*self)));
            let mut rows: Vec<Option<usize>> = Vec::new();
            let mut ord: usize = 0;
            let mut b: usize = 0;
            assert(bs.subrange(0, 0) =~= Seq::<BlockView>::empty());
            while b < blocks.len()
                invariant
                    b <= blocks@.len(),
                    blocks@.map_values(|x: crate::help::Block| x@) == bs,
                    bs == blocks_from(lv, 0),
                    strings_view(ls@) == lv,
                    wv == ws@.map_values(|w: Vec<char>| w@),
                    (rows@, ord as nat) == block_rows(lv, bs.subrange(0, b as int), wv),
                    ord <= rows@.len(),
                decreases blocks@.len() - b,
            {
                let block = &blocks[b];
                assert(bs[b as int] == block@);
                assert(bs.subrange(0, b + 1).drop_last() =~= bs.subrange(0, b as int));
                assert(lv.len() == ls@.len());
                proof {
                    crate::help::lemma_block_entries_are_lines(lv, b as int);
                }
                assert(block@.entries == block.entries@);
                let m = matching_lines(&ls, &block.entries, &ws);
                if m.len() > 0 {
                    let ghost r0 = rows@;
                    let mut h: usize = 0;
                    while h < block.header.len()
                        invariant
                            h <= block.header@.len(),
                            rows@ == r0 + nones(h as nat),
                        decreases block.header@.len() - h,
                    {
                        rows.push(None);
                        h += 1;
                        assert(rows@ =~= r0 + nones(h as nat));
                    }
                    let ghost r1 = rows@;
                    let ghost o0 = ord;
                    let mut k: usize = 0;
                    while k < m.len()
                        invariant
                            k <= m@.len(),
                            rows@ == r1 + Seq::new(k as nat, |j: int| Some((o0 + j) as usize)),
                            ord == o0 + k,
                            o0 <= r0.len(),
                            r1.len() == r0.len() + block.header@.len(),
                            rows@.len() == r1.len() + k,
                        decreases m@.len() - k,
                    {
                        rows.push(Some(ord));
                        let rl = rows.len();
                        assert(ord < rl);
                        ord += 1;
                        k += 1;
                        assert(rows@ =~= r1 + Seq::new(k as nat, |j: int| Some((o0 + j) as usize)));
                    }
                }
                b += 1;
            }
            assert(bs.subrange(0, bs.len() as int) =~= bs);
            rows
        } else {
            let mut rows: Vec<Option<usize>> = Vec::new();
            let mut n: usize = 0;
            let mut i: usize = 0;
            assert(lv.subrange(0, 0) =~= Seq::<Seq<char>>::empty());
            while i < ls.len()
                invariant
                    i <= ls@.len(),
                    strings_view(ls@) == lv,
                    (rows@, n as nat) == plain_rows(lv.subrange(0, i as int)),
                    n <= i,
                decreases ls@.len() - i,
            {
                assert(lv.subrange(0, i + 1).drop_last() =~= lv.subrange(0, i as int));
                assert(lv[i as int] == ls@[i as int]@);
                if is_selectable_line(ls[i].as_str()) {
                    rows.push(Some(n));
                    n += 1;
                } else {
                    rows.push(None);
                }
                i += 1;
            }
            assert(lv.subrange(0, lv.len() as int) =~= lv);
            rows
        }
    }
}

proof fn lemma_euclid_mod(x: int, n: int)
    requires
        n > 0,
    ensures
        x >= 0 ==> x % n == (x as nat) % (n as nat),
        x < 0 ==> x % n == (if (-x) % n == 0 {
            0
        } else {
            n - (-x) % n
        }),
{
    if x < 0 {
        let m = (-x) % n;
        let q = (-x) / n;
        assert(-x == q * n + m) by (nonlinear_arith)
            requires
                n > 0,
                m == (-x) % n,
                q == (-x) / n,
        ;
        if m == 0 {
            assert(x == (-q) * n) by (nonlinear_arith)
                requires
                    -x == q * n + m,
                    m == 0,
            ;
            assert(x % n == 0) by (nonlinear_arith)
                requires
                    x == (-q) * n,
                    n > 0,
            ;
        } else {
            assert(x == (-q - 1) * n + (n - m)) by (nonlinear_arith)
                requires
                    -x == q * n + m,
            ;
            assert(0 <= n - m < n) by (nonlinear_arith)
                requires
                    m == (-x) % n,
                    n > 0,
                    m != 0,
            ;
            assert(x % n == n - m) by (nonlinear_arith)
                requires
                    x == (-q - 1) * n + (n - m),
                    0 <= n - m < n,
            ;
        }
    }
}

} // verus!
