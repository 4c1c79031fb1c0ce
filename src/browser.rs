//! The result browser: which search results can be chosen, and how the
//! page and selection move on each key.

use vstd::prelude::*;

verus! {

/// Entries shown per page.
pub const PAGE_SIZE: usize = 5;

/// One song found by a search. The duration is kept in milliseconds.
pub struct Response {
    pub id: i64,
    pub track_name: String,
    pub artist_name: String,
    pub album_name: String,
    pub duration_ms: u64,
    pub instrumental: bool,
    pub synced_lyrics: Option<String>,
}

/// A result can be browsed when it has a voice and timed lyrics.
pub open spec fn is_browsable(r: Response) -> bool {
    !r.instrumental && r.synced_lyrics is Some
}

/// Positions of the browsable results, in their original order.
pub open spec fn browsable_indices(rs: Seq<Response>) -> Seq<int>
    decreases rs.len(),
{
    if rs.len() == 0 {
        Seq::empty()
    } else {
        let prev = browsable_indices(rs.drop_last());
        if is_browsable(rs.last()) {
            prev.push(rs.len() - 1)
        } else {
            prev
        }
    }
}

/// Positions of the results that can be browsed, in order.
pub fn browsable(responses: &Vec<Response>) -> (r: Vec<usize>)
    ensures
        r@.len() == browsable_indices(responses@).len(),
        forall|k: int| 0 <= k < r@.len() ==> r@[k] as int == browsable_indices(responses@)[k],
{
    let mut out: Vec<usize> = Vec::new();
    let mut i: usize = 0;
    while i < responses.len()
        invariant
            i <= responses@.len(),
            out@.len() == browsable_indices(responses@.take(i as int)).len(),
            forall|k: int|
                0 <= k < out@.len() ==> out@[k] as int == browsable_indices(
                    responses@.take(i as int),
                )[k],
        decreases responses@.len() - i,
    {
        assert(responses@.take(i + 1).drop_last() =~= responses@.take(i as int));
        if !responses[i].instrumental && responses[i].synced_lyrics.is_some() {
            out.push(i);
        }
        i = i + 1;
    }
    assert(responses@.take(responses@.len() as int) =~= responses@);
    out
}

/// The browsable positions are exactly the browsable results, each once, in
/// their original order.
pub proof fn lemma_browsable_exact(rs: Seq<Response>)
    ensures
        forall|k: int|
            0 <= k < browsable_indices(rs).len() ==> 0 <= #[trigger] browsable_indices(rs)[k]
                < rs.len() && is_browsable(rs[browsable_indices(rs)[k]]),
        forall|k1: int, k2: int|
            0 <= k1 < k2 < browsable_indices(rs).len() ==> #[trigger] browsable_indices(rs)[k1]
                < #[trigger] browsable_indices(rs)[k2],
        forall|i: int|
            0 <= i < rs.len() && is_browsable(#[trigger] rs[i]) ==> exists|k: int|
                0 <= k < browsable_indices(rs).len() && browsable_indices(rs)[k] == i,
    decreases rs.len(),
{
    if rs.len() > 0 {
        let d = rs.drop_last();
        lemma_browsable_exact(d);
        let p = browsable_indices(d);
        assert forall|k: int| 0 <= k < p.len() implies p[k] < rs.len() - 1 && rs[p[k]] == d[p[k]] by {
        }
        assert forall|i: int| 0 <= i < rs.len() && is_browsable(#[trigger] rs[i]) implies exists|
            k: int,
        | 0 <= k < browsable_indices(rs).len() && browsable_indices(rs)[k] == i by {
            if i < rs.len() - 1 {
                assert(d[i] == rs[i]);
                let k = choose|k: int| 0 <= k < p.len() && p[k] == i;
                assert(browsable_indices(rs)[k] == i);
            } else {
                assert(browsable_indices(rs)[p.len() as int] == i);
            }
        }
    }
}

/// A key of the browser.
pub enum Key {
    Up,
    Down,
    Left,
    Right,
    Enter,
    Esc,
    Other,
}

/// What a key led to.
#[derive(PartialEq, Eq, Structural, Debug, Clone, Copy)]
pub enum Step {
    /// Nothing changed.
    Unchanged,
    /// The page or the selection moved: draw again.
    Redraw,
    /// The entry at this position of the browsable list was chosen.
    Select(usize),
    /// The user left without choosing.
    Abort,
}

/// `ceil(n / p)`.
pub open spec fn page_count(n: nat, p: nat) -> nat
    recommends
        p > 0,
{
    if n % p == 0 {
        n / p
    } else {
        n / p + 1
    }
}

/// Number of entries on page `page` when `n` entries are cut into pages of `p`.
pub open spec fn page_len(n: nat, p: nat, page: nat) -> nat {
    let rest: int = n - page * p;
    if rest < 0 {
        0
    } else if rest < p {
        rest as nat
    } else {
        p
    }
}

/// The page count is the least number of pages of `p` that hold `n`
/// entries, and the last page holds `n - p * (count - 1)` of them.
pub proof fn lemma_page_count(n: nat, p: nat)
    requires
        n > 0,
        p > 0,
    ensures
        page_count(n, p) >= 1,
        page_count(n, p) * p >= n,
        (page_count(n, p) - 1) * p < n,
        page_len(n, p, (page_count(n, p) - 1) as nat) == n - p * (page_count(n, p) - 1),
        1 <= page_len(n, p, (page_count(n, p) - 1) as nat) <= p,
{
    let q = n / p;
    let r = n % p;
    assert(n == q * p + r) by (nonlinear_arith)
        requires
            p > 0,
            q == n / p,
            r == n % p,
    ;
    let c = page_count(n, p);
    if r == 0 {
        assert(q >= 1) by (nonlinear_arith)
            requires
                n == q * p + r,
                r == 0,
                n > 0,
        ;
        assert((c - 1) * p == n - p) by (nonlinear_arith)
            requires
                c == q,
                n == q * p,
        ;
    } else {
        assert(c * p == n - r + p) by (nonlinear_arith)
            requires
                c == q + 1,
                n == q * p + r,
        ;
        assert((c - 1) * p == n - r) by (nonlinear_arith)
            requires
                c == q + 1,
                n == q * p + r,
        ;
    }
}

/// Where the browser stands: `count` entries in pages of `page_size`, the
/// current page, and the selection within it.
pub struct BrowserState {
    pub count: usize,
    pub page_size: usize,
    pub page: usize,
    pub selected: usize,
}

/// The browser's move on a key: Up and Down move the selection within the
/// page, Left and Right turn the page and select its first entry, Enter
/// chooses the selected entry and Esc leaves. A move past an end changes
/// nothing.
pub open spec fn key_step(s: BrowserState, key: Key) -> (BrowserState, Step) {
    match key {
        Key::Up => if s.selected > 0 {
            (BrowserState { selected: (s.selected - 1) as usize, ..s }, Step::Redraw)
        } else {
            (s, Step::Unchanged)
        },
        Key::Down => if s.selected + 1 < s.on_page() {
            (BrowserState { selected: (s.selected + 1) as usize, ..s }, Step::Redraw)
        } else {
            (s, Step::Unchanged)
        },
        Key::Left => if s.page > 0 {
            (BrowserState { page: (s.page - 1) as usize, selected: 0, ..s }, Step::Redraw)
        } else {
            (s, Step::Unchanged)
        },
        Key::Right => if s.page + 1 < s.pages() {
            (BrowserState { page: (s.page + 1) as usize, selected: 0, ..s }, Step::Redraw)
        } else {
            (s, Step::Unchanged)
        },
        Key::Enter => (s, Step::Select(s.chosen() as usize)),
        Key::Esc => (s, Step::Abort),
        Key::Other => (s, Step::Unchanged),
    }
}

impl BrowserState {
    pub open spec fn pages(&self) -> nat {
        page_count(self.count as nat, self.page_size as nat)
    }

    /// Entries on the current page.
    pub open spec fn on_page(&self) -> nat {
        page_len(self.count as nat, self.page_size as nat, self.page as nat)
    }

    pub open spec fn wf(&self) -> bool {
        &&& self.count > 0
        &&& self.page_size > 0
        &&& self.page < self.pages()
        &&& self.selected < self.on_page()
    }

    /// Position in the whole list of the selected entry.
    pub open spec fn chosen(&self) -> int {
        self.page * self.page_size + self.selected
    }

    /// The first page, with its first entry selected.
    pub fn new(count: usize, page_size: usize) -> (r: BrowserState)
        requires
            count > 0,
            page_size > 0,
        ensures
            r.wf(),
            r.count == count,
            r.page_size == page_size,
            r.page == 0,
            r.selected == 0,
    {
        proof {
            lemma_page_count(count as nat, page_size as nat);
        }
        BrowserState { count, page_size, page: 0, selected: 0 }
    }

    /// Number of pages.
    pub fn page_total(&self) -> (r: usize)
        requires
            self.count > 0,
            self.page_size > 0,
        ensures
            r as nat == self.pages(),
    {
        if self.count % self.page_size == 0 {
            self.count / self.page_size
        } else {
            assert(self.count / self.page_size < self.count) by (nonlinear_arith)
                requires
                    self.page_size >= 2,
                    self.count >= 1,
            ;
            self.count / self.page_size + 1
        }
    }

    /// Start and end (exclusive) in the whole list of the current page.
    pub fn page_range(&self) -> (r: (usize, usize))
        requires
            self.wf(),
        ensures
            r.0 == self.page * self.page_size,
            r.1 == r.0 + self.on_page(),
            r.1 <= self.count,
    {
        proof {
            self.lemma_page_start();
        }
        let start = self.page * self.page_size;
        let rest = self.count - start;
        let len = if rest < self.page_size {
            rest
        } else {
            self.page_size
        };
        (start, start + len)
    }

    /// The current page starts inside the list.
    pub proof fn lemma_page_start(&self)
        requires
            self.wf(),
        ensures
            self.page * self.page_size < self.count,
            self.chosen() < self.count,
    {
        lemma_page_count(self.count as nat, self.page_size as nat);
        let c = self.pages();
        assert(self.page * self.page_size <= (c - 1) * self.page_size) by (nonlinear_arith)
            requires
                self.page <= c - 1,
        ;
    }

    /// Moves on a key, as `key_step` says.
    pub fn handle_key(&mut self, key: Key) -> (r: Step)
        requires
            old(self).wf(),
        ensures
            final(self).wf(),
            (*final(self), r) == key_step(*old(self), key),
            r is Select ==> r->Select_0 < old(self).count,
    {
        proof {
            self.lemma_page_start();
            lemma_page_count(self.count as nat, self.page_size as nat);
        }
        match key {
            Key::Up => {
                if self.selected > 0 {
                    self.selected = self.selected - 1;
                    Step::Redraw
                } else {
                    Step::Unchanged
                }
            },
            Key::Down => {
                let (start, end) = self.page_range();
                if self.selected + 1 < end - start {
                    self.selected = self.selected + 1;
                    Step::Redraw
                } else {
                    Step::Unchanged
                }
            },
            Key::Left => {
                if self.page > 0 {
                    self.page = self.page - 1;
                    self.selected = 0;
                    proof {
                        self.lemma_page_nonempty();
                    }
                    Step::Redraw
                } else {
                    Step::Unchanged
                }
            },
            Key::Right => {
                if self.page < self.page_total() - 1 {
                    self.page = self.page + 1;
                    self.selected = 0;
                    proof {
                        self.lemma_page_nonempty();
                    }
                    Step::Redraw
                } else {
                    Step::Unchanged
                }
            },
            Key::Enter => Step::Select(self.page * self.page_size + self.selected),
            Key::Esc => Step::Abort,
            Key::Other => Step::Unchanged,
        }
    }

    /// Every page before the page count holds at least one entry.
    pub proof fn lemma_page_nonempty(&self)
        requires
            self.count > 0,
            self.page_size > 0,
            self.page < self.pages(),
        ensures
            self.on_page() >= 1,
    {
        lemma_page_count(self.count as nat, self.page_size as nat);
        let c = self.pages();
        assert(self.page * self.page_size <= (c - 1) * self.page_size) by (nonlinear_arith)
            requires
                self.page <= c - 1,
        ;
    }
}

/// From a well-formed state every key leads to a well-formed state: the
/// selection stays below the number of entries on the current page.
pub proof fn lemma_key_step_wf(s: BrowserState, key: Key)
    requires
        s.wf(),
    ensures
        key_step(s, key).0.wf(),
        key_step(s, key).0.selected < key_step(s, key).0.on_page(),
{
    lemma_page_count(s.count as nat, s.page_size as nat);
    let t = key_step(s, key).0;
    if t.page != s.page {
        t.lemma_page_nonempty();
    }
}

/// Down on the last entry of a page and Up on the first change nothing.
pub proof fn lemma_selection_ends(s: BrowserState)
    requires
        s.wf(),
    ensures
        s.selected + 1 == s.on_page() ==> key_step(s, Key::Down) == (s, Step::Unchanged),
        s.selected == 0 ==> key_step(s, Key::Up) == (s, Step::Unchanged),
{
}

/// Left on the first page and Right on the last change nothing; a page turn
/// that happens selects the first entry of the new page.
pub proof fn lemma_page_turns(s: BrowserState)
    requires
        s.wf(),
    ensures
        s.page == 0 ==> key_step(s, Key::Left) == (s, Step::Unchanged),
        s.page + 1 == s.pages() ==> key_step(s, Key::Right) == (s, Step::Unchanged),
        key_step(s, Key::Left).1 == Step::Redraw ==> key_step(s, Key::Left).0.selected == 0
            && key_step(s, Key::Left).0.page == s.page - 1,
        key_step(s, Key::Right).1 == Step::Redraw ==> key_step(s, Key::Right).0.selected == 0
            && key_step(s, Key::Right).0.page == s.page + 1,
{
}

} // verus!
