//! The pagination engine: a token-based "list one page" capability turned
//! into a flat, lazily produced sequence of catalog entries.
//!
//! The remote call itself is a suspension point the library cannot make, so
//! the engine is an explicit state machine: `next_step` says whether an entry
//! can be yielded, a page must be fetched, or the catalog is exhausted, and
//! the driver feeds each fetched page (or the fetch failure) back in.

use crate::item::Item;
use crate::item::ItemView;
use crate::item::item_views;
use vstd::prelude::*;

verus! {

/// The abstract value of an optional page token.
pub open spec fn token_view(t: Option<String>) -> Option<Seq<char>> {
    match t {
        Some(t) => Some(t@),
        None => None,
    }
}

/// One page as the remote listing returns it: its entries, and the token for
/// the page after it. An absent token means the catalog is exhausted.
pub struct Page {
    pub items: Vec<Item>,
    pub next_page_token: Option<String>,
}

/// The abstract value of a `Page`.
#[verifier::ext_equal]
pub struct PageView {
    pub items: Seq<ItemView>,
    pub next_page_token: Option<Seq<char>>,
}

impl View for Page {
    type V = PageView;

    open spec fn view(&self) -> PageView {
        PageView { items: item_views(self.items@), next_page_token: token_view(self.next_page_token) }
    }
}

/// What one remote "list" call came back with: a page, or a failure that
/// terminates the whole sequence.
pub enum FetchResult {
    Fetched(Page),
    Failed,
}

/// The abstract value of a `FetchResult`.
pub enum FetchResultView {
    Fetched(PageView),
    Failed,
}

impl View for FetchResult {
    type V = FetchResultView;

    open spec fn view(&self) -> FetchResultView {
        match self {
            FetchResult::Fetched(p) => FetchResultView::Fetched(p@),
            FetchResult::Failed => FetchResultView::Failed,
        }
    }
}

/// The abstract values of a sequence of fetch results.
pub open spec fn fetch_views(s: Seq<FetchResult>) -> Seq<FetchResultView> {
    s.map_values(|f: FetchResult| f@)
}

/// What `next_step` answered: an entry, a request for one more remote page
/// (with the current token), or the clean end of the sequence.
pub enum Step {
    Yield(Item),
    Fetch,
    End,
}

/// The pagination cursor: the not-yet-yielded entries of the most recently
/// fetched page, the token for the next page, and whether the remote catalog
/// is exhausted.
pub struct State {
    buffer: Vec<Item>,
    next_page_token: Option<String>,
    done: bool,
}

/// The abstract value of a pagination cursor.
#[verifier::ext_equal]
pub struct StateView {
    pub buffer: Seq<ItemView>,
    pub next_page_token: Option<Seq<char>>,
    pub done: bool,
}

impl View for State {
    type V = StateView;

    closed spec fn view(&self) -> StateView {
        StateView {
            buffer: item_views(self.buffer@),
            next_page_token: token_view(self.next_page_token),
            done: self.done,
        }
    }
}

impl State {
    /// A fresh cursor: nothing buffered, no token (the first remote call
    /// carries none), catalog not yet known to be exhausted.
    pub fn new() -> (r: State)
        ensures
            r@.buffer == Seq::<ItemView>::empty(),
            r@.next_page_token is None,
            !r@.done,
    {
        let r = State { buffer: Vec::new(), next_page_token: None, done: false };
        proof {
            assert(r@.buffer =~= Seq::<ItemView>::empty());
        }
        r
    }

    /// Advance one step: yield the next buffered entry; or report the end of
    /// the sequence; or, with an empty buffer and an inexhausted catalog, ask
    /// the driver for one more page.
    pub fn next_step(&mut self) -> (r: Step)
        ensures
            old(self)@.buffer.len() > 0 ==> {
                &&& r matches Step::Yield(item) && item@ == old(self)@.buffer[0]
                &&& final(self)@.buffer == old(self)@.buffer.drop_first()
                &&& final(self)@.next_page_token == old(self)@.next_page_token
                &&& final(self)@.done == old(self)@.done
            },
            old(self)@.buffer.len() == 0 && old(self)@.done ==> r == Step::End && final(self)@
                == old(self)@,
            old(self)@.buffer.len() == 0 && !old(self)@.done ==> r == Step::Fetch && final(self)@
                == old(self)@,
    {
        if self.buffer.len() > 0 {
            let item = self.buffer.remove(0);
            proof {
                assert(self@.buffer =~= old(self)@.buffer.drop_first());
                assert(item@ == old(self)@.buffer[0]);
            }
            Step::Yield(item)
        } else if self.done {
            Step::End
        } else {
            Step::Fetch
        }
    }

    /// The token the next remote call must carry; absent before the first
    /// call.
    pub fn page_token(&self) -> (r: &Option<String>)
        ensures
            token_view(*r) == self@.next_page_token,
    {
        &self.next_page_token
    }

    /// Take in one fetched page: its entries become the buffer, and an absent
    /// next-page token marks the catalog exhausted.
    pub fn apply_page(&mut self, page: Page)
        requires
            old(self)@.buffer.len() == 0,
            !old(self)@.done,
        ensures
            final(self)@.buffer == page@.items,
            final(self)@.next_page_token == page@.next_page_token,
            final(self)@.done == (page@.next_page_token is None),
    {
        self.done = match &page.next_page_token {
            Some(_) => false,
            None => true,
        };
        self.buffer = page.items;
        self.next_page_token = page.next_page_token;
    }

    /// Terminate the sequence after a failed remote call: nothing further is
    /// ever yielded.
    pub fn fail(&mut self)
        ensures
            final(self)@.buffer == Seq::<ItemView>::empty(),
            final(self)@.done,
    {
        self.buffer = Vec::new();
        self.done = true;
        proof {
            assert(self@.buffer =~= Seq::<ItemView>::empty());
        }
    }
}

/// Every entry the sequence still yields, from a cursor holding `buffer` and
/// `done`, when the remote answers with `script`: the buffered entries, then
/// page after page until a page comes without a token, the script runs dry,
/// or a fetch fails.
pub open spec fn emit_from(buffer: Seq<ItemView>, done: bool, script: Seq<FetchResultView>) -> Seq<
    ItemView,
>
    decreases script.len(),
{
    buffer + if done {
        Seq::<ItemView>::empty()
    } else if script.len() == 0 {
        Seq::<ItemView>::empty()
    } else {
        match script[0] {
            FetchResultView::Failed => Seq::<ItemView>::empty(),
            FetchResultView::Fetched(p) => emit_from(
                p.items,
                p.next_page_token is None,
                script.drop_first(),
            ),
        }
    }
}

/// Whether the sequence ends in a listing error rather than a clean end of
/// catalog: some page is still owed and the script fails (or runs dry)
/// before a page without a token arrives.
pub open spec fn fails_from(done: bool, script: Seq<FetchResultView>) -> bool
    decreases script.len(),
{
    if done {
        false
    } else if script.len() == 0 {
        true
    } else {
        match script[0] {
            FetchResultView::Failed => true,
            FetchResultView::Fetched(p) => fails_from(p.next_page_token is None, script.drop_first()),
        }
    }
}

/// The concatenation, in arrival order, of the entries of every fetched page
/// of a script.
pub open spec fn pages_items(script: Seq<FetchResultView>) -> Seq<ItemView>
    decreases script.len(),
{
    if script.len() == 0 {
        Seq::<ItemView>::empty()
    } else {
        match script[0] {
            FetchResultView::Fetched(p) => p.items + pages_items(script.drop_first()),
            FetchResultView::Failed => pages_items(script.drop_first()),
        }
    }
}

/// Pagination termination: against a finite chain of pages, each carrying a
/// token except the last, the sequence yields exactly the concatenation of
/// the pages' entries and then ends cleanly, with no listing error.
pub proof fn lemma_finite_chain_yields_all(script: Seq<FetchResultView>)
    requires
        script.len() > 0,
        forall|i: int| 0 <= i < script.len() ==> (#[trigger] script[i]) is Fetched,
        forall|i: int| 0 <= i < script.len() - 1 ==> (#[trigger] script[i])->Fetched_0.next_page_token is Some,
        script.last()->Fetched_0.next_page_token is None,
    ensures
        emit_from(Seq::<ItemView>::empty(), false, script) == pages_items(script),
        !fails_from(false, script),
    decreases script.len(),
{
    reveal_with_fuel(emit_from, 3);
    reveal_with_fuel(fails_from, 3);
    reveal_with_fuel(pages_items, 3);
    let p0 = script[0]->Fetched_0;
    let rest = script.drop_first();
    if script.len() == 1 {
        assert(emit_from(Seq::<ItemView>::empty(), false, script) =~= pages_items(script));
    } else {
        assert(rest.last() == script.last());
        assert(forall|i: int| 0 <= i < rest.len() ==> rest[i] == #[trigger] script[i + 1]);
        lemma_finite_chain_yields_all(rest);
        let p1 = rest[0]->Fetched_0;
        assert(emit_from(Seq::<ItemView>::empty(), false, rest) =~= emit_from(
            p1.items,
            p1.next_page_token is None,
            rest.drop_first(),
        ));
        assert(emit_from(Seq::<ItemView>::empty(), false, script) =~= p0.items + emit_from(
            Seq::<ItemView>::empty(),
            false,
            rest,
        ));
        assert(emit_from(Seq::<ItemView>::empty(), false, script) =~= pages_items(script));
    }
}

/// Listing failure propagation: where every page before position `k` arrives
/// with a token and the fetch at `k` fails, the sequence yields exactly the
/// entries of those first `k` pages and then surfaces the error.
pub proof fn lemma_failure_after_pages(script: Seq<FetchResultView>, k: int)
    requires
        0 <= k < script.len(),
        script[k] is Failed,
        forall|i: int| 0 <= i < k ==> (#[trigger] script[i]) is Fetched,
        forall|i: int| 0 <= i < k ==> (#[trigger] script[i])->Fetched_0.next_page_token is Some,
    ensures
        emit_from(Seq::<ItemView>::empty(), false, script) == pages_items(script.take(k)),
        fails_from(false, script),
    decreases k,
{
    reveal_with_fuel(emit_from, 3);
    reveal_with_fuel(fails_from, 3);
    reveal_with_fuel(pages_items, 3);
    if k == 0 {
        assert(emit_from(Seq::<ItemView>::empty(), false, script) =~= pages_items(script.take(0)));
    } else {
        let p0 = script[0]->Fetched_0;
        let rest = script.drop_first();
        assert(forall|i: int| 0 <= i < rest.len() ==> rest[i] == #[trigger] script[i + 1]);
        lemma_failure_after_pages(rest, k - 1);
        if rest[0] is Fetched {
            let p1 = rest[0]->Fetched_0;
            assert(emit_from(Seq::<ItemView>::empty(), false, rest) =~= emit_from(
                p1.items,
                p1.next_page_token is None,
                rest.drop_first(),
            ));
        }
        assert(emit_from(Seq::<ItemView>::empty(), false, script) =~= p0.items + emit_from(
            Seq::<ItemView>::empty(),
            false,
            rest,
        ));
        assert(script.take(k).drop_first() =~= rest.take(k - 1));
        assert(emit_from(Seq::<ItemView>::empty(), false, script) =~= pages_items(script.take(k)));
    }
}

/// Drive a fresh cursor against a script of remote answers and collect the
/// whole sequence: exactly the pages' entries in arrival order up to the
/// first failure, and whether the sequence ended in a listing error instead
/// of a clean end of catalog.
pub fn list(script: Vec<FetchResult>) -> (r: (Vec<Item>, bool))
    ensures
        item_views(r.0@) == emit_from(Seq::<ItemView>::empty(), false, fetch_views(script@)),
        r.1 == fails_from(false, fetch_views(script@)),
{
    let ghost whole: Seq<FetchResultView> = fetch_views(script@);
    let mut rest = script;
    let mut lister = State::new();
    let mut out: Vec<Item> = Vec::new();
    let mut failed = false;
    proof {
        assert(item_views(out@) =~= Seq::<ItemView>::empty());
    }
    loop
        invariant_except_break
            emit_from(Seq::<ItemView>::empty(), false, whole) == item_views(out@) + emit_from(
                lister@.buffer,
                lister@.done,
                fetch_views(rest@),
            ),
            fails_from(false, whole) == fails_from(lister@.done, fetch_views(rest@)),
            !failed,
        ensures
            item_views(out@) == emit_from(Seq::<ItemView>::empty(), false, whole),
            failed == fails_from(false, whole),
        decreases rest@.len(), lister@.buffer.len(),
    {
        let ghost pre_out: Seq<Item> = out@;
        let ghost pre_l: StateView = lister@;
        let ghost pre_s: Seq<FetchResultView> = fetch_views(rest@);
        match lister.next_step() {
            Step::Yield(item) => {
                out.push(item);
                proof {
                    assert(item_views(out@) =~= item_views(pre_out).push(pre_l.buffer[0]));
                    assert(item_views(pre_out).push(pre_l.buffer[0]) + emit_from(
                        lister@.buffer,
                        lister@.done,
                        fetch_views(rest@),
                    ) =~= item_views(pre_out) + emit_from(pre_l.buffer, pre_l.done, pre_s));
                }
            },
            Step::End => {
                proof {
                    assert(item_views(out@) + emit_from(pre_l.buffer, pre_l.done, pre_s)
                        =~= item_views(out@));
                }
                break;
            },
            Step::Fetch => {
                if rest.len() == 0 {
                    proof {
                        assert(pre_s.len() == 0);
                        assert(item_views(out@) + emit_from(pre_l.buffer, pre_l.done, pre_s)
                            =~= item_views(out@));
                    }
                    failed = true;
                    break;
                }
                let fr = rest.remove(0);
                proof {
                    assert(fetch_views(rest@) =~= pre_s.drop_first());
                    assert(fr@ == pre_s[0]);
                }
                match fr {
                    FetchResult::Failed => {
                        lister.fail();
                        proof {
                            assert(item_views(out@) + emit_from(pre_l.buffer, pre_l.done, pre_s)
                                =~= item_views(out@));
                        }
                        failed = true;
                        break;
                    },
                    FetchResult::Fetched(page) => {
                        lister.apply_page(page);
                        proof {
                            assert(emit_from(pre_l.buffer, pre_l.done, pre_s) =~= emit_from(
                                lister@.buffer,
                                lister@.done,
                                fetch_views(rest@),
                            ));
                        }
                    },
                }
            },
        }
    }
    (out, failed)
}

} // verus!
