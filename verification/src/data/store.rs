//! What is kept: the book of what is held and what was traded, and the tables.
use super::account;
use super::account::BookView;
use super::models;
use super::models::{
    normalize_code, Fundamental, FundamentalView, Market, Position, PositionView, Stock, StockView,
    Trade, TradeView,
};
use super::tables::{Bar, BarView, Note, NoteView};
use crate::fixed;
use crate::fixed::Fixed;
use crate::num;
use crate::num::Scalar;
use crate::order;
use crate::order::{Entry, EntryView};
use crate::shelf::Shelf;
use crate::table::Table;
use crate::text;
use vstd::prelude::*;

verus! {

// ---------------------------------------------------------------------------
// The book
// ---------------------------------------------------------------------------
/// The positions held, by their dates, and the trades made, by their numbers; the watch
/// list, the bars and valuations of its securities, and notes.
pub struct Store<N: Scalar> {
    pub positions: Vec<Position<N>>,
    pub trades: Vec<Trade<N>>,
    pub next_position: i64,
    pub next_trade: i64,
    pub stocks: Shelf<Stock>,
    pub bars: Shelf<Bar<N>>,
    pub valuations: Shelf<Fundamental<N>>,
    pub notes: Shelf<Note>,
}

/// What a sale yields.
#[derive(Debug)]
pub struct SellOutcome<N: Scalar> {
    /// What one of the shares sold had cost.
    pub avg_cost: N,
    pub realized_pnl: N,
    pub sold_qty: i64,
    pub remaining_qty: i64,
}

/// Why a sale is refused.
#[derive(Debug, Clone, Copy, PartialEq, Eq, Structural)]
pub enum SellError {
    /// The quantity is not above zero.
    NotPositive,
    /// Nothing is held.
    NothingHeld,
    /// More is offered than is held.
    TooMany,
}

/// What is said where a sale is refused.
pub fn refusal(e: SellError, code: &str, quantity: i64, held_qty: i64) -> (r: String)
    ensures
        r@ == (match e {
            SellError::NotPositive => "卖出数量必须为正,收到 "@ + text::decimal_int(quantity as int),
            SellError::NothingHeld => code@ + " 无持仓"@,
            SellError::TooMany => "卖出 "@ + text::decimal_int(quantity as int) + " 股超过持仓 "@
                + text::decimal_int(held_qty as int) + " 股"@,
        }),
{
    let mut out = String::new();
    match e {
        SellError::NotPositive => {
            out.append("卖出数量必须为正,收到 ");
            out.append(text::show_int(quantity).as_str());
            assert(out@ =~= "卖出数量必须为正,收到 "@ + text::decimal_int(quantity as int));
        },
        SellError::NothingHeld => {
            out.append(code);
            out.append(" 无持仓");
            assert(out@ =~= code@ + " 无持仓"@);
        },
        SellError::TooMany => {
            out.append("卖出 ");
            out.append(text::show_int(quantity).as_str());
            out.append(" 股超过持仓 ");
            out.append(text::show_int(held_qty).as_str());
            out.append(" 股");
            assert(out@ =~= "卖出 "@ + text::decimal_int(quantity as int) + " 股超过持仓 "@
                + text::decimal_int(held_qty as int) + " 股"@);
        },
    }
    out
}

/// A position comes before another: by the date, then by the number.
pub open spec fn older<N: Scalar>(a: PositionView<N>, b: PositionView<N>) -> bool {
    text::before(a.date, b.date) || (a.date == b.date && a.id < b.id)
}

/// The numbers of the trades ascend.
pub open spec fn numbered<N: Scalar>(ts: Seq<TradeView<N>>) -> bool {
    forall|i: int, j: int|
        0 <= i < j < ts.len() ==> (#[trigger] ts[i]).id < (#[trigger] ts[j]).id
}

/// Trades stand by their dates, and those of one day by their numbers.
pub open spec fn by_date_and_number<N: Scalar>(ts: Seq<TradeView<N>>) -> bool {
    forall|i: int, j: int|
        0 <= i < j < ts.len() ==> text::before((#[trigger] ts[i]).date, (#[trigger] ts[j]).date)
            || (ts[i].date == ts[j].date && ts[i].id < ts[j].id)
}

/// How many shares of a code the first `n` positions hold.
pub open spec fn held_in<N: Scalar>(ps: Seq<PositionView<N>>, code: Seq<char>, n: int) -> int
    decreases n,
{
    if n <= 0 {
        0
    } else {
        held_in(ps, code, n - 1) + (if ps[n - 1].code == code {
            ps[n - 1].quantity as int
        } else {
            0
        })
    }
}

/// How many shares of a code are held.
pub open spec fn held<N: Scalar>(ps: Seq<PositionView<N>>, code: Seq<char>) -> int {
    held_in(ps, code, ps.len() as int)
}

/// How many shares a position gives where `r` are to be sold: no more than it holds, and
/// none where it is of another code.
pub open spec fn drawn<N: Scalar>(p: PositionView<N>, code: Seq<char>, r: int) -> int {
    if p.code != code || r == 0 {
        0
    } else if p.quantity <= r {
        p.quantity as int
    } else {
        r
    }
}

/// How many shares are still to be sold when the first `n` positions have been drawn on.
pub open spec fn left<N: Scalar>(
    ps: Seq<PositionView<N>>,
    code: Seq<char>,
    sell: int,
    n: int,
) -> int
    decreases n,
{
    if n <= 0 {
        sell
    } else {
        let r = left(ps, code, sell, n - 1);
        r - drawn(ps[n - 1], code, r)
    }
}

/// How many shares a sale takes from position `i`.
pub open spec fn taken<N: Scalar>(
    ps: Seq<PositionView<N>>,
    code: Seq<char>,
    sell: int,
    i: int,
) -> int {
    drawn(ps[i], code, left(ps, code, sell, i))
}

/// Whether a sale uses position `i` up.
pub open spec fn used_up<N: Scalar>(
    ps: Seq<PositionView<N>>,
    code: Seq<char>,
    sell: int,
    i: int,
) -> bool {
    let r = left(ps, code, sell, i);
    ps[i].code == code && r != 0 && ps[i].quantity <= r
}

/// What a sale leaves of the first `n` positions.
pub open spec fn kept<N: Scalar>(
    ps: Seq<PositionView<N>>,
    code: Seq<char>,
    sell: int,
    n: int,
) -> Seq<PositionView<N>>
    decreases n,
{
    if n <= 0 {
        Seq::empty()
    } else if used_up(ps, code, sell, n - 1) {
        kept(ps, code, sell, n - 1)
    } else {
        kept(ps, code, sell, n - 1).push(
            PositionView {
                quantity: (ps[n - 1].quantity - taken(ps, code, sell, n - 1)) as i64,
                ..ps[n - 1]
            },
        )
    }
}

/// What the shares that a sale takes from the first `n` positions had cost.
pub open spec fn spent<N: Scalar>(
    ps: Seq<PositionView<N>>,
    code: Seq<char>,
    sell: int,
    n: int,
) -> N
    decreases n,
{
    if n <= 0 {
        num::nil::<N>()
    } else {
        let before = spent(ps, code, sell, n - 1);
        if ps[n - 1].code != code || left(ps, code, sell, n - 1) == 0 {
            before
        } else {
            before.sum(ps[n - 1].price.product(N::whole(taken(ps, code, sell, n - 1))))
        }
    }
}

/// What is told of a sale: what a share sold had cost, what the sale gained, how many shares
/// it sold and how many are left.
pub open spec fn outcome_told<N: Scalar>(
    ps: Seq<PositionView<N>>,
    code: Seq<char>,
    price: N,
    quantity: i64,
    o: SellOutcome<N>,
) -> bool {
    let cost = spent(ps, code, quantity as int, ps.len() as int);
    &&& o.avg_cost == cost.quotient(N::whole(quantity as int))
    &&& o.realized_pnl == price.product(N::whole(quantity as int)).difference(cost)
    &&& o.sold_qty == quantity
    &&& o.remaining_qty == held(ps, code) - quantity
}

/// The first `n` positions without those of a code.
pub open spec fn without_code<N: Scalar>(
    ps: Seq<PositionView<N>>,
    code: Seq<char>,
    n: int,
) -> Seq<PositionView<N>>
    decreases n,
{
    if n <= 0 {
        Seq::empty()
    } else if ps[n - 1].code == code {
        without_code(ps, code, n - 1)
    } else {
        without_code(ps, code, n - 1).push(ps[n - 1])
    }
}

/// The first `n` trades without the purchases of a code.
pub open spec fn without_buys<N: Scalar>(
    ts: Seq<TradeView<N>>,
    code: Seq<char>,
    n: int,
) -> Seq<TradeView<N>>
    decreases n,
{
    if n <= 0 {
        Seq::empty()
    } else if ts[n - 1].code == code && ts[n - 1].action == "buy"@ {
        without_buys(ts, code, n - 1)
    } else {
        without_buys(ts, code, n - 1).push(ts[n - 1])
    }
}

/// A trade counts towards what was realised: a sale, of the code that is asked for.
pub open spec fn counts<N: Scalar>(t: TradeView<N>, code: Option<Seq<char>>) -> bool {
    t.action == "sell"@ && (match code {
        Some(c) => t.code == c,
        None => true,
    })
}

/// What the first `n` trades realised, of one code or of all.
pub open spec fn realized<N: Scalar>(
    ts: Seq<TradeView<N>>,
    code: Option<Seq<char>>,
    n: int,
) -> N
    decreases n,
{
    if n <= 0 {
        num::nil::<N>()
    } else {
        let before = realized(ts, code, n - 1);
        match ts[n - 1].pnl {
            Some(p) => if counts(ts[n - 1], code) {
                before.sum(p)
            } else {
                before
            },
            None => before,
        }
    }
}

/// A text that may be missing, as the text of an option.
pub open spec fn asked(code: Option<&str>) -> Option<Seq<char>> {
    match code {
        Some(c) => Some(c@),
        None => None,
    }
}

fn own(s: Option<&str>) -> (r: Option<String>)
    ensures
        text::text_option(r) == asked(s),
{
    match s {
        Some(t) => Some(t.to_owned()),
        None => None,
    }
}

impl<N: Scalar> Store<N> {
    /// The positions.
    pub open spec fn ps(&self) -> Seq<PositionView<N>> {
        models::position_views(self.positions@)
    }

    /// The trades.
    pub open spec fn ts(&self) -> Seq<TradeView<N>> {
        models::trade_views(self.trades@)
    }

    /// The positions and the trades.
    pub open spec fn book(&self) -> BookView<N> {
        BookView { ps: self.ps(), ts: self.ts() }
    }

    /// The positions stand by age, no number is given twice, and the tables are in order.
    pub open spec fn wf(&self) -> bool {
        &&& self.book_wf()
        &&& self.stocks.wf()
        &&& self.bars.wf()
        &&& self.valuations.wf()
        &&& self.notes.wf()
    }

    /// The watch list, the bars, the valuations and the notes are those of another store.
    pub open spec fn same_tables(&self, o: Self) -> bool {
        &&& self.stocks == o.stocks
        &&& self.bars == o.bars
        &&& self.valuations == o.valuations
        &&& self.notes == o.notes
    }

    /// The positions and the trades are those of another store.
    pub open spec fn same_book(&self, o: Self) -> bool {
        &&& self.positions == o.positions
        &&& self.trades == o.trades
        &&& self.next_position == o.next_position
        &&& self.next_trade == o.next_trade
    }

    /// The positions stand by age and the trades by their numbers, and no number is given
    /// twice.
    pub open spec fn book_wf(&self) -> bool {
        &&& forall|i: int, j: int|
            0 <= i < j < self.ps().len() ==> older(#[trigger] self.ps()[i], #[trigger] self.ps()[j])
        &&& forall|i: int|
            0 <= i < self.ps().len() ==> (#[trigger] self.ps()[i]).id < self.next_position
        &&& forall|i: int|
            0 <= i < self.ts().len() ==> (#[trigger] self.ts()[i]).id < self.next_trade
        &&& numbered(self.ts())
    }

    /// A store with nothing in it.
    pub fn new() -> (r: Self)
        ensures
            r.wf(),
            r.stocks.list() == Seq::<StockView>::empty(),
            r.bars.list() == Seq::<BarView<N>>::empty(),
            r.valuations.list() == Seq::<FundamentalView<N>>::empty(),
            r.notes.list() == Seq::<NoteView>::empty(),
            r.ps() == Seq::<PositionView<N>>::empty(),
            r.ts() == Seq::<TradeView<N>>::empty(),
            r.next_position == 1,
            r.next_trade == 1,
    {
        let r = Store {
            positions: Vec::new(),
            trades: Vec::new(),
            next_position: 1,
            next_trade: 1,
            stocks: Shelf::new(),
            bars: Shelf::new(),
            valuations: Shelf::new(),
            notes: Shelf::new(),
        };
        assert(r.ps() =~= Seq::<PositionView<N>>::empty());
        assert(r.ts() =~= Seq::<TradeView<N>>::empty());
        r
    }

    /// Notes a purchase: a new position in its place, and a trade.
    pub fn add_position(
        &mut self,
        code: &str,
        price: N,
        quantity: i64,
        date: &str,
        note: Option<&str>,
    )
        requires
            old(self).wf(),
            old(self).next_position < i64::MAX,
            old(self).next_trade < i64::MAX,
        ensures
            final(self).wf(),
            final(self).same_tables(*old(self)),
            final(self).next_position == old(self).next_position + 1,
            final(self).next_trade == old(self).next_trade + 1,
            account::bought(old(self).book(), final(self).book()),
            ({
                let p = PositionView {
                    id: old(self).next_position,
                    code: code@,
                    price,
                    quantity,
                    date: date@,
                    note: asked(note),
                };
                exists|k: int|
                    0 <= k <= old(self).ps().len() && final(self).ps() == #[trigger] old(
                        self,
                    ).ps().insert(k, p)
            }),
            final(self).ts() == old(self).ts().push(
                TradeView {
                    id: old(self).next_trade,
                    code: code@,
                    action: "buy"@,
                    price,
                    quantity,
                    date: date@,
                    note: asked(note),
                    cost_basis: None,
                    pnl: None,
                },
            ),
    {
        let ghost before = self.ps();
        let ghost trades_before = self.ts();
        let mut k: usize = self.positions.len();
        while k > 0 && text::precedes(date, self.positions[k - 1].date.as_str())
            invariant
                before == self.ps(),
                k <= self.positions@.len(),
                forall|j: int|
                    k <= j < before.len() ==> text::before(date@, (#[trigger] before[j]).date),
            decreases k,
        {
            assert(before[k - 1].date == self.positions@[k - 1].date@);
            k -= 1;
        }
        let p = Position {
            id: self.next_position,
            code: code.to_owned(),
            price,
            quantity,
            date: date.to_owned(),
            note: own(note),
        };
        let ghost pv = p@;
        self.positions.insert(k, p);
        self.trades.push(
            Trade {
                id: self.next_trade,
                code: code.to_owned(),
                action: "buy".to_owned(),
                price,
                quantity,
                date: date.to_owned(),
                note: own(note),
                cost_basis: None,
                pnl: None,
            },
        );
        self.next_position = self.next_position + 1;
        self.next_trade = self.next_trade + 1;
        let ghost after = self.ps();
        proof {
            assert(after =~= before.insert(k as int, pv));
            assert(self.ts() =~= trades_before.push(self.trades@.last()@));
            let was = old(self).book();
            let t = self.trades@.last()@;
            assert(self.book().ps == was.ps.insert(k as int, pv));
            assert(self.book().ts == was.ts.push(t));
            assert forall|j: int| 0 <= j < k implies !text::before(
                date@,
                (#[trigger] before[j]).date,
            ) by {
                assert(!text::before(date@, before[k - 1].date));
                if j < k - 1 {
                    assert(older(before[j], before[k - 1]));
                    if text::before(date@, before[j].date) && text::before(
                        before[j].date,
                        before[k - 1].date,
                    ) {
                        text::before_transitive(date@, before[j].date, before[k - 1].date);
                    }
                }
            }
            assert forall|i: int, j: int| 0 <= i < j < after.len() implies older(
                #[trigger] after[i],
                #[trigger] after[j],
            ) by {
                if j < k {
                    assert(after[i] == before[i] && after[j] == before[j]);
                } else if j == k {
                    assert(after[i] == before[i]);
                    text::before_total(date@, before[i].date);
                } else if i < k {
                    assert(after[i] == before[i] && after[j] == before[j - 1]);
                } else if i == k {
                    assert(after[j] == before[j - 1]);
                } else {
                    assert(after[i] == before[i - 1] && after[j] == before[j - 1]);
                }
            }
            assert forall|i: int| 0 <= i < after.len() implies (#[trigger] after[i]).id
                < self.next_position by {
                if i < k {
                    assert(after[i] == before[i]);
                } else if i > k {
                    assert(after[i] == before[i - 1]);
                }
            }
            assert forall|i: int| 0 <= i < self.ts().len() implies (#[trigger] self.ts()[i]).id
                < self.next_trade by {
                if i < trades_before.len() {
                    assert(self.ts()[i] == trades_before[i]);
                }
            }
        }
    }

    /// Takes an entry back: the positions of a code and its purchases are struck out, its
    /// sales stay. Returns whether anything was held.
    pub fn remove_position(&mut self, code: &str) -> (r: bool)
        requires
            old(self).wf(),
        ensures
            final(self).wf(),
            final(self).same_tables(*old(self)),
            final(self).ps() == without_code(old(self).ps(), code@, old(self).ps().len() as int),
            final(self).ts() == without_buys(old(self).ts(), code@, old(self).ts().len() as int),
            final(self).next_position == old(self).next_position,
            final(self).next_trade == old(self).next_trade,
            r == exists|i: int|
                0 <= i < old(self).ps().len() && (#[trigger] old(self).ps()[i]).code == code@,
    {
        let ghost ps = self.ps();
        let ghost ts = self.ts();
        let mut positions: Vec<Position<N>> = Vec::new();
        let mut found = false;
        let mut i: usize = 0;
        assert(models::position_views(positions@) =~= Seq::<PositionView<N>>::empty());
        while i < self.positions.len()
            invariant
                *self == *old(self),
                ps == self.ps(),
                i <= self.positions@.len(),
                models::position_views(positions@) == without_code(ps, code@, i as int),
                found == exists|j: int| 0 <= j < i && (#[trigger] ps[j]).code == code@,
            decreases self.positions@.len() - i,
        {
            assert(ps[i as int] == self.positions@[i as int]@);
            let ghost before = positions@;
            if text::same(self.positions[i].code.as_str(), code) {
                found = true;
            } else {
                positions.push(self.positions[i].clone());
                assert(models::position_views(positions@) =~= models::position_views(before).push(
                    positions@.last()@,
                ));
            }
            i += 1;
        }
        let mut trades: Vec<Trade<N>> = Vec::new();
        let mut i: usize = 0;
        assert(models::trade_views(trades@) =~= Seq::<TradeView<N>>::empty());
        while i < self.trades.len()
            invariant
                *self == *old(self),
                ts == self.ts(),
                i <= self.trades@.len(),
                models::trade_views(trades@) == without_buys(ts, code@, i as int),
            decreases self.trades@.len() - i,
        {
            assert(ts[i as int] == self.trades@[i as int]@);
            let ghost before = trades@;
            if !(text::same(self.trades[i].code.as_str(), code) && text::same(
                self.trades[i].action.as_str(),
                "buy",
            )) {
                trades.push(self.trades[i].clone());
                assert(models::trade_views(trades@) =~= models::trade_views(before).push(
                    trades@.last()@,
                ));
            }
            i += 1;
        }
        proof {
            struck_out(ps, code@, ps.len() as int);
            struck_buys(ts, code@, ts.len() as int);
            let after = models::position_views(positions@);
            let w = choose|w: Seq<int>| #[trigger] picks(ps, after, w, ps.len() as int);
            assert forall|i: int, j: int| 0 <= i < j < after.len() implies older(
                #[trigger] after[i],
                #[trigger] after[j],
            ) by {
                assert(w[i] < w[j]);
                assert(older(ps[w[i]], ps[w[j]]));
            }
            assert forall|i: int| 0 <= i < after.len() implies (#[trigger] after[i]).id
                < self.next_position by {
                assert(ps[w[i]].id == after[i].id);
            }
        }
        self.positions = positions;
        self.trades = trades;
        found
    }

    /// How many shares of a code are held.
    pub fn held_quantity(&self, code: &str) -> (r: i128)
        ensures
            r == held(self.ps(), code@),
    {
        let ghost ps = self.ps();
        let n = self.positions.len();
        let mut sum: i128 = 0;
        let mut i: usize = 0;
        while i < n
            invariant
                ps == self.ps(),
                n == self.positions@.len(),
                i <= n,
                sum == held_in(ps, code@, i as int),
                -9_223_372_036_854_775_808 * i <= sum <= 9_223_372_036_854_775_808 * i,
            decreases n - i,
        {
            assert(ps[i as int] == self.positions@[i as int]@);
            if text::same(self.positions[i].code.as_str(), code) {
                sum = sum + self.positions[i].quantity as i128;
            }
            i += 1;
        }
        sum
    }

    /// Sells shares, the oldest first. What was gained is the price less what the very
    /// shares sold had cost, fees left aside. A sale that is refused changes nothing.
    pub fn sell_position(
        &mut self,
        code: &str,
        price: N,
        quantity: i64,
        date: &str,
        note: Option<&str>,
    ) -> (r: Result<SellOutcome<N>, SellError>)
        requires
            old(self).wf(),
            old(self).next_trade < i64::MAX,
            i64::MIN <= held(old(self).ps(), code@) <= i64::MAX,
        ensures
            final(self).wf(),
            final(self).same_tables(*old(self)),
            final(self).next_position == old(self).next_position,
            match r {
                Ok(o) => {
                    let ps = old(self).ps();
                    let n = ps.len() as int;
                    let cost = spent(ps, code@, quantity as int, n);
                    let gain = price.product(N::whole(quantity as int)).difference(cost);
                    &&& 0 < quantity <= held(ps, code@)
                    &&& account::sold(old(self).book(), final(self).book())
                    &&& outcome_told(ps, code@, price, quantity, o)
                    &&& o.avg_cost == cost.quotient(N::whole(quantity as int))
                    &&& o.realized_pnl == gain
                    &&& o.sold_qty == quantity
                    &&& o.remaining_qty == held(ps, code@) - quantity
                    &&& final(self).ps() == kept(ps, code@, quantity as int, n)
                    &&& final(self).next_trade == old(self).next_trade + 1
                    &&& final(self).ts() == old(self).ts().push(
                        TradeView {
                            id: old(self).next_trade,
                            code: code@,
                            action: "sell"@,
                            price,
                            quantity,
                            date: date@,
                            note: asked(note),
                            cost_basis: Some(o.avg_cost),
                            pnl: Some(gain),
                        },
                    )
                },
                Err(e) => {
                    let total = held(old(self).ps(), code@);
                    &&& *final(self) == *old(self)
                    &&& e == SellError::NotPositive <==> quantity <= 0
                    &&& e == SellError::NothingHeld <==> quantity > 0 && total == 0
                    &&& e == SellError::TooMany <==> quantity > 0 && total != 0 && quantity > total
                },
            },
    {
        if quantity <= 0 {
            return Err(SellError::NotPositive);
        }
        let total = self.held_quantity(code);
        if total == 0 {
            return Err(SellError::NothingHeld);
        }
        if quantity as i128 > total {
            return Err(SellError::TooMany);
        }
        let ghost ps = self.ps();
        let ghost sell = quantity as int;
        let n = self.positions.len();
        let mut positions: Vec<Position<N>> = Vec::new();
        let mut remaining: i128 = quantity as i128;
        let mut cost = num::zero::<N>();
        let mut i: usize = 0;
        assert(models::position_views(positions@) =~= Seq::<PositionView<N>>::empty());
        while i < n
            invariant
                *self == *old(self),
                ps == self.ps(),
                n == ps.len(),
                i <= n,
                sell == quantity,
                quantity > 0,
                remaining == left(ps, code@, sell, i as int),
                0 <= remaining <= 9_223_372_036_854_775_807 + 9_223_372_036_854_775_808 * i,
                cost == spent(ps, code@, sell, i as int),
                models::position_views(positions@) == kept(ps, code@, sell, i as int),
            decreases n - i,
        {
            assert(ps[i as int] == self.positions@[i as int]@);
            let ghost before = positions@;
            let mut p = self.positions[i].clone();
            if !text::same(p.code.as_str(), code) || remaining == 0 {
                positions.push(p);
            } else {
                let q = p.quantity;
                let take: i64 = if q as i128 <= remaining {
                    q
                } else {
                    remaining as i64
                };
                cost = cost.plus(p.price.times(N::from_int(take as i128)));
                if q as i128 > remaining {
                    p.quantity = q - take;
                    positions.push(p);
                }
                remaining = remaining - take as i128;
            }
            proof {
                if !used_up(ps, code@, sell, i as int) {
                    assert(models::position_views(positions@) =~= models::position_views(
                        before,
                    ).push(positions@.last()@));
                }
            }
            i += 1;
        }
        let qf = N::from_int(quantity as i128);
        let avg_cost = cost.over(qf);
        let realized_pnl = price.times(qf).minus(cost);
        let ghost trades_before = self.ts();
        proof {
            kept_picks(ps, code@, sell, n as int);
            let after = models::position_views(positions@);
            let w = choose|w: Seq<int>| #[trigger] picks_some(ps, after, w, ps.len() as int);
            assert forall|i: int, j: int| 0 <= i < j < after.len() implies older(
                #[trigger] after[i],
                #[trigger] after[j],
            ) by {
                assert(w[i] < w[j]);
                assert(older(ps[w[i]], ps[w[j]]));
            }
            assert forall|i: int| 0 <= i < after.len() implies (#[trigger] after[i]).id
                < self.next_position by {
                assert(ps[w[i]].id == after[i].id);
            }
        }
        self.positions = positions;
        self.trades.push(
            Trade {
                id: self.next_trade,
                code: code.to_owned(),
                action: "sell".to_owned(),
                price,
                quantity,
                date: date.to_owned(),
                note: own(note),
                cost_basis: Some(avg_cost),
                pnl: Some(realized_pnl),
            },
        );
        self.next_trade = self.next_trade + 1;
        proof {
            assert(self.ts() =~= trades_before.push(self.trades@.last()@));
            let was = old(self).book();
            let t = self.trades@.last()@;
            assert(self.book().ts == was.ts.push(t));
            assert forall|i: int| 0 <= i < self.ts().len() implies (#[trigger] self.ts()[i]).id
                < self.next_trade by {
                if i < trades_before.len() {
                    assert(self.ts()[i] == trades_before[i]);
                }
            }
        }
        Ok(
            SellOutcome {
                avg_cost,
                realized_pnl,
                sold_qty: quantity,
                remaining_qty: (total - quantity as i128) as i64,
            },
        )
    }

    /// What all sales, or those of one code, have gained.
    pub fn realized_pnl(&self, code: Option<&str>) -> (r: N)
        ensures
            r == realized(self.ts(), asked(code), self.ts().len() as int),
    {
        let ghost ts = self.ts();
        let mut sum = num::zero::<N>();
        let mut i: usize = 0;
        while i < self.trades.len()
            invariant
                ts == self.ts(),
                i <= self.trades@.len(),
                sum == realized(ts, asked(code), i as int),
            decreases self.trades@.len() - i,
        {
            assert(ts[i as int] == self.trades@[i as int]@);
            let t = &self.trades[i];
            let mine = match code {
                Some(c) => text::same(t.code.as_str(), c),
                None => true,
            };
            match t.pnl {
                Some(p) => {
                    if text::same(t.action.as_str(), "sell") && mine {
                        sum = sum.plus(p);
                    }
                },
                None => {},
            }
            i += 1;
        }
        sum
    }

    /// What the sales of each code have gained.
    pub fn realized_by_code(&self) -> (r: Table<N>)
        ensures
            r@ == gained_by_code(self.ts(), self.ts().len() as int),
    {
        let ghost ts = self.ts();
        let mut out: Table<N> = Table::new();
        let mut i: usize = 0;
        while i < self.trades.len()
            invariant
                ts == self.ts(),
                i <= self.trades@.len(),
                out@ == gained_by_code(ts, i as int),
            decreases self.trades@.len() - i,
        {
            assert(ts[i as int] == self.trades@[i as int]@);
            let t = &self.trades[i];
            match t.pnl {
                Some(p) => {
                    if text::same(t.action.as_str(), "sell") {
                        let so_far = match out.get(t.code.as_str()) {
                            Some(v) => v,
                            None => num::zero::<N>(),
                        };
                        out.set(t.code.clone(), so_far.plus(p));
                    }
                },
                None => {},
            }
            i += 1;
        }
        out
    }

    /// The positions, the oldest first.
    pub fn list_positions(&self) -> (r: Vec<Position<N>>)
        ensures
            models::position_views(r@) == self.ps(),
    {
        let mut out: Vec<Position<N>> = Vec::new();
        let mut i: usize = 0;
        while i < self.positions.len()
            invariant
                i <= self.positions@.len(),
                models::position_views(out@) == self.ps().take(i as int),
            decreases self.positions@.len() - i,
        {
            let ghost before = out@;
            out.push(self.positions[i].clone());
            i += 1;
            assert(models::position_views(out@) =~= models::position_views(before).push(
                out@.last()@,
            ));
            assert(models::position_views(out@) =~= self.ps().take(i as int));
        }
        assert(models::position_views(out@) =~= self.ps());
        out
    }

    /// The trades by their dates; those of one day in the order in which they were noted.
    pub fn list_trades(&self) -> (r: Vec<Trade<N>>)
        ensures
            exists|list: Seq<EntryView>|
                order::ordered(dated_entries(self.ts(), self.ts().len() as int), list)
                    && models::trade_views(r@) == #[trigger] picked(self.ts(), list),
            self.book_wf() ==> by_date_and_number(models::trade_views(r@)),
    {
        let ghost ts = self.ts();
        let n = self.trades.len();
        let mut list: Vec<Entry> = Vec::new();
        let mut i: usize = 0;
        assert(order::entry_views(list@) =~= Seq::<EntryView>::empty());
        while i < n
            invariant
                ts == self.ts(),
                n == ts.len(),
                i <= n,
                order::entry_views(list@) == dated_entries(ts, i as int),
            decreases n - i,
        {
            assert(ts[i as int] == self.trades@[i as int]@);
            let ghost before = list@;
            list.push(Entry { key: 0, name: self.trades[i].date.clone(), tag: i });
            assert(order::entry_views(list@) =~= order::entry_views(before).push(list@.last()@));
            i += 1;
        }
        let sorted = order::sort(list);
        let ghost sv = order::entry_views(sorted@);
        proof {
            broadcast use vstd::seq_lib::group_to_multiset_ensures;

            dated_tags(ts, n as int);
            assert forall|j: int| 0 <= j < sv.len() implies (#[trigger] sv[j]).tag < n by {
                assert(sv.contains(sv[j]));
                assert(sv.to_multiset().count(sv[j]) > 0);
                assert(dated_entries(ts, n as int).contains(sv[j]));
            }
        }
        let mut out: Vec<Trade<N>> = Vec::new();
        let mut k: usize = 0;
        while k < sorted.len()
            invariant
                ts == self.ts(),
                n == ts.len(),
                sv == order::entry_views(sorted@),
                forall|j: int| 0 <= j < sv.len() ==> (#[trigger] sv[j]).tag < n,
                k <= sorted@.len(),
                models::trade_views(out@) == picked(ts, sv).take(k as int),
            decreases sorted@.len() - k,
        {
            let ghost before = out@;
            assert(sv[k as int].tag == sorted@[k as int].tag);
            out.push(self.trades[sorted[k].tag].clone());
            k += 1;
            assert(models::trade_views(out@) =~= models::trade_views(before).push(out@.last()@));
            assert(models::trade_views(out@) =~= picked(ts, sv).take(k as int));
        }
        assert(models::trade_views(out@) =~= picked(ts, sv));
        proof {
            if self.book_wf() {
                listed_by_date(ts, n as int, sv);
            }
        }
        out
    }
}

/// Trades that were put in order stand by their dates and their numbers.
proof fn listed_by_date<N: Scalar>(ts: Seq<TradeView<N>>, n: int, list: Seq<EntryView>)
    requires
        n == ts.len(),
        n <= usize::MAX,
        numbered(ts),
        order::ordered(dated_entries(ts, n), list),
    ensures
        by_date_and_number(picked(ts, list)),
{
    let all = dated_entries(ts, n);
    let r = picked(ts, list);
    dated_places(ts, n);
    entries_once(ts, n, list);
    assert forall|i: int, j: int| 0 <= i < j < r.len() implies text::before(
        (#[trigger] r[i]).date,
        (#[trigger] r[j]).date,
    ) || (r[i].date == r[j].date && r[i].id < r[j].id) by {
        order::ordered_keeps(all, list, i);
        order::ordered_keeps(all, list, j);
        let x = choose|x: int| 0 <= x < all.len() && all[x] == list[i];
        let y = choose|y: int| 0 <= y < all.len() && all[y] == list[j];
        assert(all[x].tag == x && all[x].name == ts[x].date);
        assert(all[y].tag == y && all[y].name == ts[y].date);
        assert(!order::ahead(list[j], list[i]));
        assert(list[i] != list[j]);
        text::before_total(ts[x].date, ts[y].date);
        if ts[x].date == ts[y].date {
            assert(x < y);
            assert(ts[x].id < ts[y].id);
        }
    }
}

proof fn dated_places<N: Scalar>(ts: Seq<TradeView<N>>, n: int)
    requires
        0 <= n <= ts.len(),
        n <= usize::MAX,
    ensures
        dated_entries(ts, n).len() == n,
        forall|k: int|
            0 <= k < n ==> #[trigger] dated_entries(ts, n)[k] == (EntryView {
                key: 0,
                name: ts[k].date,
                tag: k as usize,
            }),
    decreases n,
{
    if n > 0 {
        dated_places(ts, n - 1);
        let before = dated_entries(ts, n - 1);
        assert forall|k: int| 0 <= k < n implies #[trigger] dated_entries(ts, n)[k] == (EntryView {
            key: 0,
            name: ts[k].date,
            tag: k as usize,
        }) by {
            if k < n - 1 {
                assert(dated_entries(ts, n)[k] == before[k]);
            }
        }
    }
}

/// No entry stands twice in the list.
proof fn entries_once<N: Scalar>(ts: Seq<TradeView<N>>, n: int, list: Seq<EntryView>)
    requires
        n == ts.len(),
        n <= usize::MAX,
        order::ordered(dated_entries(ts, n), list),
    ensures
        forall|i: int, j: int| 0 <= i < j < list.len() ==> #[trigger] list[i] != #[trigger] list[j],
{
    let all = dated_entries(ts, n);
    dated_places(ts, n);
    assert(all.no_duplicates()) by {
        assert forall|i: int, j: int| 0 <= i < all.len() && 0 <= j < all.len() && i != j implies all[i]
            != all[j] by {
            assert(all[i].tag == i && all[j].tag == j);
        }
    }
    all.lemma_multiset_has_no_duplicates();
    list.lemma_multiset_has_no_duplicates_conv();
}

/// What the sales of each code among the first `n` trades have gained.
pub open spec fn gained_by_code<N: Scalar>(ts: Seq<TradeView<N>>, n: int) -> Map<Seq<char>, N>
    decreases n,
{
    if n <= 0 {
        Map::empty()
    } else {
        let before = gained_by_code(ts, n - 1);
        let t = ts[n - 1];
        match t.pnl {
            Some(p) => if t.action == "sell"@ {
                before.insert(
                    t.code,
                    (if before.contains_key(t.code) {
                        before[t.code]
                    } else {
                        num::nil::<N>()
                    }).sum(p),
                )
            } else {
                before
            },
            None => before,
        }
    }
}

/// The first `n` trades with their dates.
pub open spec fn dated_entries<N: Scalar>(ts: Seq<TradeView<N>>, n: int) -> Seq<EntryView>
    decreases n,
{
    if n <= 0 {
        Seq::empty()
    } else {
        dated_entries(ts, n - 1).push(
            EntryView { key: 0, name: ts[n - 1].date, tag: (n - 1) as usize },
        )
    }
}

/// The trades in the order of a list.
pub open spec fn picked<N: Scalar>(ts: Seq<TradeView<N>>, list: Seq<EntryView>) -> Seq<
    TradeView<N>,
> {
    Seq::new(list.len(), |j: int| ts[list[j].tag as int])
}

proof fn dated_tags<N: Scalar>(ts: Seq<TradeView<N>>, n: int)
    requires
        0 <= n <= usize::MAX,
    ensures
        forall|e: EntryView| #[trigger] dated_entries(ts, n).contains(e) ==> e.tag < n,
    decreases n,
{
    if n > 0 {
        dated_tags(ts, n - 1);
        let before = dated_entries(ts, n - 1);
        assert forall|e: EntryView| #[trigger] dated_entries(ts, n).contains(e) implies e.tag < n by {
            let k = choose|k: int| 0 <= k < dated_entries(ts, n).len() && dated_entries(ts, n)[k] == e;
            if k < before.len() {
                assert(before[k] == e);
                assert(before.contains(e));
            }
        }
    }
}

/// One list is made of some of another's positions, in their order.
spec fn picks<N: Scalar>(
    ps: Seq<PositionView<N>>,
    after: Seq<PositionView<N>>,
    w: Seq<int>,
    n: int,
) -> bool {
    &&& w.len() == after.len()
    &&& forall|i: int|
        0 <= i < w.len() ==> 0 <= #[trigger] w[i] < n && after[i] == ps[w[i]]
    &&& forall|i: int, j: int| 0 <= i < j < w.len() ==> #[trigger] w[i] < #[trigger] w[j]
}

/// The same, with quantities that may differ.
spec fn picks_some<N: Scalar>(
    ps: Seq<PositionView<N>>,
    after: Seq<PositionView<N>>,
    w: Seq<int>,
    n: int,
) -> bool {
    &&& w.len() == after.len()
    &&& forall|i: int|
        0 <= i < w.len() ==> 0 <= #[trigger] w[i] < n && after[i].id == ps[w[i]].id
            && after[i].date == ps[w[i]].date
    &&& forall|i: int, j: int| 0 <= i < j < w.len() ==> #[trigger] w[i] < #[trigger] w[j]
}

proof fn struck_out<N: Scalar>(ps: Seq<PositionView<N>>, code: Seq<char>, n: int)
    requires
        0 <= n <= ps.len(),
    ensures
        exists|w: Seq<int>| #[trigger] picks(ps, without_code(ps, code, n), w, n),
    decreases n,
{
    if n <= 0 {
        let w = Seq::<int>::empty();
        assert(picks(ps, without_code(ps, code, n), w, n));
    } else {
        struck_out(ps, code, n - 1);
        let w = choose|w: Seq<int>| #[trigger] picks(ps, without_code(ps, code, n - 1), w, n - 1);
        if ps[n - 1].code == code {
            assert(picks(ps, without_code(ps, code, n), w, n));
        } else {
            let v = w.push(n - 1);
            assert(picks(ps, without_code(ps, code, n), v, n));
        }
    }
}

proof fn struck_buys<N: Scalar>(ts: Seq<TradeView<N>>, code: Seq<char>, n: int)
    requires
        0 <= n <= ts.len(),
    ensures
        forall|i: int|
            0 <= i < without_buys(ts, code, n).len() ==> exists|j: int|
                0 <= j < n && ts[j] == #[trigger] without_buys(ts, code, n)[i],
        numbered(ts) ==> numbered(without_buys(ts, code, n)),
    decreases n,
{
    if n > 0 {
        struck_buys(ts, code, n - 1);
        let before = without_buys(ts, code, n - 1);
        let after = without_buys(ts, code, n);
        assert forall|i: int| 0 <= i < after.len() implies exists|j: int|
            0 <= j < n && ts[j] == #[trigger] after[i] by {
            if i < before.len() {
                assert(after[i] == before[i]);
            } else {
                assert(ts[n - 1] == after[i]);
            }
        }
        if numbered(ts) {
            assert forall|i: int, j: int| 0 <= i < j < after.len() implies (#[trigger] after[i]).id
                < (#[trigger] after[j]).id by {
                assert(after[i] == before[i]);
                if j < before.len() {
                    assert(after[j] == before[j]);
                } else {
                    assert(exists|k: int| 0 <= k < n - 1 && ts[k] == before[i]);
                    let k = choose|k: int| 0 <= k < n - 1 && ts[k] == before[i];
                    assert(ts[k].id < ts[n - 1].id);
                }
            }
        }
    }
}

proof fn kept_picks<N: Scalar>(ps: Seq<PositionView<N>>, code: Seq<char>, sell: int, n: int)
    requires
        0 <= n <= ps.len(),
    ensures
        exists|w: Seq<int>| #[trigger] picks_some(ps, kept(ps, code, sell, n), w, n),
    decreases n,
{
    if n <= 0 {
        let w = Seq::<int>::empty();
        assert(picks_some(ps, kept(ps, code, sell, n), w, n));
    } else {
        kept_picks(ps, code, sell, n - 1);
        let w = choose|w: Seq<int>| #[trigger]
            picks_some(ps, kept(ps, code, sell, n - 1), w, n - 1);
        if used_up(ps, code, sell, n - 1) {
            assert(picks_some(ps, kept(ps, code, sell, n), w, n));
        } else {
            let v = w.push(n - 1);
            assert(picks_some(ps, kept(ps, code, sell, n), v, n));
        }
    }
}

// ---------------------------------------------------------------------------
// Positions that have been cleared
// ---------------------------------------------------------------------------
/// A code of which nothing is held any more, with what its sales brought.
pub struct ClosedPosition<N: Scalar> {
    pub code: String,
    pub sold_qty: i128,
    /// What the shares sold had cost.
    pub cost: N,
    pub realized_pnl: N,
    pub last_date: String,
}

/// A cleared code with its texts as sequences of characters.
pub ghost struct ClosedView<N: Scalar> {
    pub code: Seq<char>,
    pub sold_qty: int,
    pub cost: N,
    pub realized_pnl: N,
    pub last_date: Seq<char>,
}

impl<N: Scalar> View for ClosedPosition<N> {
    type V = ClosedView<N>;

    open spec fn view(&self) -> ClosedView<N> {
        ClosedView {
            code: self.code@,
            sold_qty: self.sold_qty as int,
            cost: self.cost,
            realized_pnl: self.realized_pnl,
            last_date: self.last_date@,
        }
    }
}

/// Several cleared codes.
pub open spec fn closed_views<N: Scalar>(v: Seq<ClosedPosition<N>>) -> Seq<ClosedView<N>> {
    Seq::new(v.len(), |i: int| v[i]@)
}

/// Something of a code is among the positions.
pub open spec fn is_held<N: Scalar>(ps: Seq<PositionView<N>>, code: Seq<char>) -> bool {
    exists|i: int| 0 <= i < ps.len() && (#[trigger] ps[i]).code == code
}

/// The codes of which the first `n` trades sold something and nothing is held, each once,
/// in the order of their first sales.
pub open spec fn cleared<N: Scalar>(
    ts: Seq<TradeView<N>>,
    ps: Seq<PositionView<N>>,
    n: int,
) -> Seq<Seq<char>>
    decreases n,
{
    if n <= 0 {
        Seq::empty()
    } else {
        let before = cleared(ts, ps, n - 1);
        let t = ts[n - 1];
        if t.action == "sell"@ && !is_held(ps, t.code) && !before.contains(t.code) {
            before.push(t.code)
        } else {
            before
        }
    }
}

/// How many shares of a code the first `n` trades sold.
pub open spec fn sold_total<N: Scalar>(ts: Seq<TradeView<N>>, code: Seq<char>, n: int) -> int
    decreases n,
{
    if n <= 0 {
        0
    } else {
        sold_total(ts, code, n - 1) + (if counts(ts[n - 1], Some(code)) {
            ts[n - 1].quantity as int
        } else {
            0
        })
    }
}

/// What the shares that the first `n` trades sold had cost.
pub open spec fn cost_total<N: Scalar>(ts: Seq<TradeView<N>>, code: Seq<char>, n: int) -> N
    decreases n,
{
    if n <= 0 {
        num::nil::<N>()
    } else {
        let before = cost_total(ts, code, n - 1);
        match ts[n - 1].cost_basis {
            Some(c) => if counts(ts[n - 1], Some(code)) {
                before.sum(c.product(N::whole(ts[n - 1].quantity as int)))
            } else {
                before
            },
            None => before,
        }
    }
}

/// The last day on which one of the first `n` trades sold a code.
pub open spec fn last_sale<N: Scalar>(ts: Seq<TradeView<N>>, code: Seq<char>, n: int) -> Seq<char>
    decreases n,
{
    if n <= 0 {
        Seq::empty()
    } else {
        let before = last_sale(ts, code, n - 1);
        if counts(ts[n - 1], Some(code)) && text::before(before, ts[n - 1].date) {
            ts[n - 1].date
        } else {
            before
        }
    }
}

/// A cleared code with what its sales brought.
pub open spec fn closed_of<N: Scalar>(ts: Seq<TradeView<N>>, code: Seq<char>) -> ClosedView<N> {
    let n = ts.len() as int;
    ClosedView {
        code,
        sold_qty: sold_total(ts, code, n),
        cost: cost_total(ts, code, n),
        realized_pnl: realized(ts, Some(code), n),
        last_date: last_sale(ts, code, n),
    }
}

/// Codes with the days of their last sales.
pub open spec fn sale_entries<N: Scalar>(
    ts: Seq<TradeView<N>>,
    codes: Seq<Seq<char>>,
    n: int,
) -> Seq<EntryView>
    decreases n,
{
    if n <= 0 {
        Seq::empty()
    } else {
        sale_entries(ts, codes, n - 1).push(
            EntryView {
                key: 0,
                name: last_sale(ts, codes[n - 1], ts.len() as int),
                tag: (n - 1) as usize,
            },
        )
    }
}

/// Cleared codes in the reverse order of a list.
pub open spec fn latest_first<N: Scalar>(
    ts: Seq<TradeView<N>>,
    codes: Seq<Seq<char>>,
    list: Seq<EntryView>,
) -> Seq<ClosedView<N>> {
    Seq::new(list.len(), |j: int| closed_of(ts, codes[list[list.len() - 1 - j].tag as int]))
}

proof fn sale_tags<N: Scalar>(ts: Seq<TradeView<N>>, codes: Seq<Seq<char>>, n: int)
    requires
        0 <= n <= usize::MAX,
    ensures
        forall|e: EntryView| #[trigger] sale_entries(ts, codes, n).contains(e) ==> e.tag < n,
    decreases n,
{
    if n > 0 {
        sale_tags(ts, codes, n - 1);
        let before = sale_entries(ts, codes, n - 1);
        let now = sale_entries(ts, codes, n);
        assert forall|e: EntryView| #[trigger] now.contains(e) implies e.tag < n by {
            let k = choose|k: int| 0 <= k < now.len() && now[k] == e;
            if k < before.len() {
                assert(before[k] == e);
                assert(before.contains(e));
            }
        }
    }
}

impl<N: Scalar> Store<N> {
    fn holds(&self, code: &str) -> (r: bool)
        ensures
            r == is_held(self.ps(), code@),
    {
        let ghost ps = self.ps();
        let mut i: usize = 0;
        while i < self.positions.len()
            invariant
                ps == self.ps(),
                i <= self.positions@.len(),
                forall|j: int| 0 <= j < i ==> (#[trigger] ps[j]).code != code@,
            decreases self.positions@.len() - i,
        {
            assert(ps[i as int] == self.positions@[i as int]@);
            if text::same(self.positions[i].code.as_str(), code) {
                return true;
            }
            i += 1;
        }
        false
    }

    /// What the sales of a code brought.
    fn closed(&self, code: &str) -> (r: ClosedPosition<N>)
        ensures
            r@ == closed_of(self.ts(), code@),
    {
        let ghost ts = self.ts();
        let n = self.trades.len();
        let mut sold_qty: i128 = 0;
        let mut cost = num::zero::<N>();
        let mut last_date = String::new();
        let mut i: usize = 0;
        assert(last_date@ =~= last_sale(ts, code@, 0));
        while i < n
            invariant
                ts == self.ts(),
                n == ts.len(),
                i <= n,
                sold_qty == sold_total(ts, code@, i as int),
                -9_223_372_036_854_775_808 * i <= sold_qty <= 9_223_372_036_854_775_808 * i,
                cost == cost_total(ts, code@, i as int),
                last_date@ == last_sale(ts, code@, i as int),
            decreases n - i,
        {
            assert(ts[i as int] == self.trades@[i as int]@);
            let t = &self.trades[i];
            if text::same(t.action.as_str(), "sell") && text::same(t.code.as_str(), code) {
                sold_qty = sold_qty + t.quantity as i128;
                match t.cost_basis {
                    Some(c) => {
                        cost = cost.plus(c.times(N::from_int(t.quantity as i128)));
                    },
                    None => {},
                }
                if text::precedes(last_date.as_str(), t.date.as_str()) {
                    last_date = t.date.clone();
                }
            }
            i += 1;
        }
        ClosedPosition {
            code: code.to_owned(),
            sold_qty,
            cost,
            realized_pnl: self.realized_pnl(Some(code)),
            last_date,
        }
    }

    /// The codes that have been sold and are not held any more, the latest first.
    pub fn closed_positions(&self) -> (r: Vec<ClosedPosition<N>>)
        ensures
            ({
                let codes = cleared(self.ts(), self.ps(), self.ts().len() as int);
                exists|list: Seq<EntryView>|
                    order::ordered(sale_entries(self.ts(), codes, codes.len() as int), list)
                        && closed_views(r@) == #[trigger] latest_first(self.ts(), codes, list)
            }),
    {
        let ghost ts = self.ts();
        let ghost ps = self.ps();
        let mut codes: Vec<String> = Vec::new();
        let mut i: usize = 0;
        assert(text::texts(codes@) =~= Seq::<Seq<char>>::empty());
        while i < self.trades.len()
            invariant
                ts == self.ts(),
                ps == self.ps(),
                i <= self.trades@.len(),
                text::texts(codes@) == cleared(ts, ps, i as int),
            decreases self.trades@.len() - i,
        {
            assert(ts[i as int] == self.trades@[i as int]@);
            let t = &self.trades[i];
            if text::same(t.action.as_str(), "sell") && !self.holds(t.code.as_str())
                && !text::is_among(&codes, t.code.as_str()) {
                let ghost before = codes@;
                codes.push(t.code.clone());
                assert(text::texts(codes@) =~= text::texts(before).push(codes@.last()@));
            }
            i += 1;
        }
        let ghost cs = text::texts(codes@);
        let n = codes.len();
        let mut rows: Vec<ClosedPosition<N>> = Vec::new();
        let mut list: Vec<Entry> = Vec::new();
        let mut i: usize = 0;
        assert(order::entry_views(list@) =~= Seq::<EntryView>::empty());
        while i < n
            invariant
                ts == self.ts(),
                cs == text::texts(codes@),
                n == codes@.len(),
                i <= n,
                rows@.len() == i,
                forall|j: int| 0 <= j < i ==> (#[trigger] rows@[j])@ == closed_of(ts, cs[j]),
                order::entry_views(list@) == sale_entries(ts, cs, i as int),
            decreases n - i,
        {
            let row = self.closed(codes[i].as_str());
            let ghost before = list@;
            list.push(Entry { key: 0, name: row.last_date.clone(), tag: i });
            assert(order::entry_views(list@) =~= order::entry_views(before).push(list@.last()@));
            rows.push(row);
            i += 1;
        }
        let sorted = order::sort(list);
        let ghost sv = order::entry_views(sorted@);
        proof {
            broadcast use vstd::seq_lib::group_to_multiset_ensures;

            sale_tags(ts, cs, n as int);
            assert forall|j: int| 0 <= j < sv.len() implies (#[trigger] sv[j]).tag < n by {
                assert(sv.contains(sv[j]));
                assert(sv.to_multiset().count(sv[j]) > 0);
                assert(sale_entries(ts, cs, n as int).contains(sv[j]));
            }
        }
        let mut out: Vec<ClosedPosition<N>> = Vec::new();
        let m = sorted.len();
        let mut k: usize = 0;
        while k < m
            invariant
                ts == self.ts(),
                cs == text::texts(codes@),
                n == codes@.len(),
                rows@.len() == n,
                forall|j: int| 0 <= j < n ==> (#[trigger] rows@[j])@ == closed_of(ts, cs[j]),
                sv == order::entry_views(sorted@),
                m == sv.len(),
                forall|j: int| 0 <= j < sv.len() ==> (#[trigger] sv[j]).tag < n,
                k <= m,
                closed_views(out@) == latest_first(ts, cs, sv).take(k as int),
            decreases m - k,
        {
            let ghost before = out@;
            let tag = sorted[m - 1 - k].tag;
            assert(sv[m - 1 - k].tag == tag);
            let row = &rows[tag];
            assert(row@ == closed_of(ts, cs[tag as int]));
            out.push(
                ClosedPosition {
                    code: row.code.clone(),
                    sold_qty: row.sold_qty,
                    cost: row.cost,
                    realized_pnl: row.realized_pnl,
                    last_date: row.last_date.clone(),
                },
            );
            k += 1;
            assert(closed_views(out@) =~= closed_views(before).push(out@.last()@));
            assert(closed_views(out@) =~= latest_first(ts, cs, sv).take(k as int));
        }
        assert(closed_views(out@) =~= latest_first(ts, cs, sv));
        out
    }
}

// ---------------------------------------------------------------------------
// Laws of the book
// ---------------------------------------------------------------------------
/// What is held among the first positions depends on them alone.
proof fn held_prefix<N: Scalar>(
    a: Seq<PositionView<N>>,
    b: Seq<PositionView<N>>,
    code: Seq<char>,
    n: int,
)
    requires
        n <= a.len(),
        n <= b.len(),
        forall|i: int| 0 <= i < n ==> a[i] == b[i],
    ensures
        held_in(a, code, n) == held_in(b, code, n),
    decreases n,
{
    if n > 0 {
        held_prefix(a, b, code, n - 1);
    }
}

proof fn held_push<N: Scalar>(s: Seq<PositionView<N>>, x: PositionView<N>, code: Seq<char>)
    ensures
        held(s.push(x), code) == held(s, code) + (if x.code == code {
            x.quantity as int
        } else {
            0
        }),
{
    held_prefix(s.push(x), s, code, s.len() as int);
}

/// What is left of a sale is what the positions so far did not hold, or nothing.
pub proof fn left_bounds<N: Scalar>(ps: Seq<PositionView<N>>, code: Seq<char>, sell: int, n: int)
    requires
        0 <= n <= ps.len(),
        0 <= sell,
    ensures
        0 <= left(ps, code, sell, n),
        left(ps, code, sell, n) == 0 || left(ps, code, sell, n) == sell - held_in(ps, code, n),
    decreases n,
{
    if n > 0 {
        left_bounds(ps, code, sell, n - 1);
    }
}

proof fn held_after<N: Scalar>(
    ps: Seq<PositionView<N>>,
    code: Seq<char>,
    sell: int,
    n: int,
    other: Seq<char>,
)
    requires
        0 <= n <= ps.len(),
        0 <= sell,
    ensures
        held(kept(ps, code, sell, n), code) == held_in(ps, code, n) - (sell - left(
            ps,
            code,
            sell,
            n,
        )),
        other != code ==> held(kept(ps, code, sell, n), other) == held_in(ps, other, n),
    decreases n,
{
    if n > 0 {
        held_after(ps, code, sell, n - 1, other);
        left_bounds(ps, code, sell, n - 1);
        let before = kept(ps, code, sell, n - 1);
        if !used_up(ps, code, sell, n - 1) {
            let x = kept(ps, code, sell, n).last();
            held_push(before, x, code);
            held_push(before, x, other);
        }
    }
}

/// A sale takes from what is held of its code exactly what it sells, and nothing of any
/// other code.
pub proof fn sale_conserves<N: Scalar>(
    ps: Seq<PositionView<N>>,
    code: Seq<char>,
    sell: int,
    other: Seq<char>,
)
    requires
        0 <= sell <= held(ps, code),
    ensures
        held(kept(ps, code, sell, ps.len() as int), code) == held(ps, code) - sell,
        other != code ==> held(kept(ps, code, sell, ps.len() as int), other) == held(ps, other),
{
    held_after(ps, code, sell, ps.len() as int, other);
    left_bounds(ps, code, sell, ps.len() as int);
}

/// Every position of a code holds something.
pub open spec fn all_positive<N: Scalar>(ps: Seq<PositionView<N>>, code: Seq<char>) -> bool {
    forall|i: int|
        0 <= i < ps.len() && (#[trigger] ps[i]).code == code ==> ps[i].quantity > 0
}

/// The oldest go first: where a sale leaves anything of a position, it takes nothing from
/// a later one.
pub proof fn oldest_go_first<N: Scalar>(
    ps: Seq<PositionView<N>>,
    code: Seq<char>,
    sell: int,
    i: int,
    j: int,
)
    requires
        0 <= i < j < ps.len(),
        0 <= sell,
        ps[i].code == code,
        taken(ps, code, sell, i) < ps[i].quantity,
    ensures
        taken(ps, code, sell, j) == 0,
{
    left_bounds(ps, code, sell, i);
    assert(left(ps, code, sell, i + 1) == 0);
    left_stays_nil(ps, code, sell, i + 1, j);
}

proof fn left_stays_nil<N: Scalar>(
    ps: Seq<PositionView<N>>,
    code: Seq<char>,
    sell: int,
    i: int,
    j: int,
)
    requires
        0 <= i <= j <= ps.len(),
        left(ps, code, sell, i) == 0,
    ensures
        left(ps, code, sell, j) == 0,
    decreases j,
{
    if j > i {
        left_stays_nil(ps, code, sell, i, j - 1);
    }
}

/// What a sale takes from the first `n` positions is worth, each share at a price.
pub open spec fn cost_in<N: Scalar>(
    ps: Seq<PositionView<N>>,
    code: Seq<char>,
    sell: int,
    n: int,
    price: spec_fn(N) -> int,
) -> int
    decreases n,
{
    if n <= 0 {
        0
    } else {
        cost_in(ps, code, sell, n - 1, price) + price(ps[n - 1].price) * taken(
            ps,
            code,
            sell,
            n - 1,
        )
    }
}

/// What all shares of a code among the first `n` positions are worth, each at a price.
pub open spec fn whole_cost<N: Scalar>(
    ps: Seq<PositionView<N>>,
    code: Seq<char>,
    n: int,
    price: spec_fn(N) -> int,
) -> int
    decreases n,
{
    if n <= 0 {
        0
    } else {
        whole_cost(ps, code, n - 1, price) + (if ps[n - 1].code == code {
            price(ps[n - 1].price) * ps[n - 1].quantity
        } else {
            0
        })
    }
}

/// What a sale makes of the first positions depends on them alone.
proof fn sale_prefix<N: Scalar>(
    a: Seq<PositionView<N>>,
    b: Seq<PositionView<N>>,
    code: Seq<char>,
    sell: int,
    n: int,
    price: spec_fn(N) -> int,
)
    requires
        n <= a.len(),
        n <= b.len(),
        forall|i: int| 0 <= i < n ==> a[i] == b[i],
    ensures
        left(a, code, sell, n) == left(b, code, sell, n),
        kept(a, code, sell, n) == kept(b, code, sell, n),
        cost_in(a, code, sell, n, price) == cost_in(b, code, sell, n, price),
    decreases n,
{
    if n > 0 {
        sale_prefix(a, b, code, sell, n - 1, price);
    }
}

proof fn split_sale<N: Scalar>(
    ps: Seq<PositionView<N>>,
    code: Seq<char>,
    q1: int,
    q2: int,
    n: int,
    price: spec_fn(N) -> int,
)
    requires
        0 <= n <= ps.len(),
        0 <= q1,
        0 <= q2,
        all_positive(ps, code),
    ensures
        ({
            let k = kept(ps, code, q1, n);
            let m = k.len() as int;
            let l1 = left(ps, code, q1, n);
            let l12 = left(ps, code, q1 + q2, n);
            let l2 = left(k, code, q2, m);
            &&& l2 == l12 - l1
            &&& l1 > 0 ==> l2 == q2
            &&& kept(k, code, q2, m) == kept(ps, code, q1 + q2, n)
            &&& cost_in(ps, code, q1, n, price) + cost_in(k, code, q2, m, price) == cost_in(
                ps,
                code,
                q1 + q2,
                n,
                price,
            )
        }),
    decreases n,
{
    if n > 0 {
        split_sale(ps, code, q1, q2, n - 1, price);
        left_bounds(ps, code, q1, n - 1);
        left_bounds(ps, code, q1 + q2, n - 1);
        let p = ps[n - 1];
        let k0 = kept(ps, code, q1, n - 1);
        let k = kept(ps, code, q1, n);
        let m0 = k0.len() as int;
        let t1 = taken(ps, code, q1, n - 1);
        let t12 = taken(ps, code, q1 + q2, n - 1);
        if used_up(ps, code, q1, n - 1) {
            assert(t1 == t12);
        } else {
            assert(k.drop_last() =~= k0);
            sale_prefix(k, k0, code, q2, m0, price);
            let x = k[m0];
            assert(x.quantity == p.quantity - t1);
            let t2 = taken(k, code, q2, m0);
            assert(t1 + t2 == t12);
            vstd::arithmetic::mul::lemma_mul_is_distributive_add(price(p.price), t1, t2);
            assert(x.price == p.price);
            if used_up(ps, code, q1 + q2, n - 1) {
                assert(used_up(k, code, q2, m0));
            } else {
                assert(!used_up(k, code, q2, m0));
                assert(kept(k, code, q2, m0 + 1).last() == kept(ps, code, q1 + q2, n).last());
            }
        }
    }
}

/// Two sales one after the other leave the positions that one sale of both quantities
/// leaves, and draw on the same shares: whatever the price of each share, the two cost
/// together what the one costs.
pub proof fn sales_add_up<N: Scalar>(
    ps: Seq<PositionView<N>>,
    code: Seq<char>,
    q1: int,
    q2: int,
    price: spec_fn(N) -> int,
)
    requires
        0 <= q1,
        0 <= q2,
        all_positive(ps, code),
    ensures
        ({
            let n = ps.len() as int;
            let k = kept(ps, code, q1, n);
            let m = k.len() as int;
            &&& kept(k, code, q2, m) == kept(ps, code, q1 + q2, n)
            &&& cost_in(ps, code, q1, n, price) + cost_in(k, code, q2, m, price) == cost_in(
                ps,
                code,
                q1 + q2,
                n,
                price,
            )
        }),
{
    split_sale(ps, code, q1, q2, ps.len() as int, price);
}

proof fn held_grows<N: Scalar>(ps: Seq<PositionView<N>>, code: Seq<char>, i: int, n: int)
    requires
        0 <= i <= n <= ps.len(),
        all_positive(ps, code),
    ensures
        held_in(ps, code, i) <= held_in(ps, code, n),
    decreases n,
{
    if n > i {
        held_grows(ps, code, i, n - 1);
    }
}

proof fn sold_out<N: Scalar>(
    ps: Seq<PositionView<N>>,
    code: Seq<char>,
    n: int,
    price: spec_fn(N) -> int,
)
    requires
        0 <= n <= ps.len(),
        all_positive(ps, code),
    ensures
        left(ps, code, held(ps, code), n) == held(ps, code) - held_in(ps, code, n),
        kept(ps, code, held(ps, code), n) == without_code(ps, code, n),
        cost_in(ps, code, held(ps, code), n, price) == whole_cost(ps, code, n, price),
    decreases n,
{
    if n > 0 {
        sold_out(ps, code, n - 1, price);
        held_grows(ps, code, n, ps.len() as int);
        assert((PositionView { quantity: (ps[n - 1].quantity - 0) as i64, ..ps[n - 1] })
            == ps[n - 1]);
        let each = price(ps[n - 1].price);
        let here = taken(ps, code, held(ps, code), n - 1);
        assert(here == (if ps[n - 1].code == code {
            ps[n - 1].quantity as int
        } else {
            0
        }));
        assert(here == 0 ==> each * here == 0);
    }
}

/// To sell all that is held leaves no position of the code and costs what all its shares
/// had cost. With [`sales_add_up`]: what several sales that clear a position have gained is
/// what they brought less what the shares were bought for.
pub proof fn selling_all_clears<N: Scalar>(
    ps: Seq<PositionView<N>>,
    code: Seq<char>,
    price: spec_fn(N) -> int,
)
    requires
        all_positive(ps, code),
    ensures
        kept(ps, code, held(ps, code), ps.len() as int) == without_code(
            ps,
            code,
            ps.len() as int,
        ),
        cost_in(ps, code, held(ps, code), ps.len() as int, price) == whole_cost(
            ps,
            code,
            ps.len() as int,
            price,
        ),
{
    sold_out(ps, code, ps.len() as int, price);
}

/// The units of a decimal.
pub open spec fn units_of() -> spec_fn(Fixed) -> int {
    |f: Fixed| f.units as int
}

/// Prices are decimals that are not below zero, and quantities such that they are decimals
/// too.
pub open spec fn in_decimals(ps: Seq<PositionView<Fixed>>) -> bool {
    forall|i: int|
        0 <= i < ps.len() ==> (#[trigger] ps[i]).price.defined && ps[i].price.units >= 0 && 0
            < ps[i].quantity <= 9_000_000_000_000
}

/// In decimals nothing is lost by rounding: what the shares sold had cost is the sum of
/// their prices, as long as the sum is in range.
pub proof fn cost_is_exact_in_decimals(
    ps: Seq<PositionView<Fixed>>,
    code: Seq<char>,
    sell: int,
    n: int,
)
    requires
        0 <= n <= ps.len(),
        0 <= sell,
        in_decimals(ps),
        cost_in(ps, code, sell, n, units_of()) <= i64::MAX,
    ensures
        0 <= cost_in(ps, code, sell, n, units_of()),
        spent(ps, code, sell, n) == fixed::of_units(cost_in(ps, code, sell, n, units_of())),
    decreases n,
{
    if n > 0 {
        left_bounds(ps, code, sell, n - 1);
        let p = ps[n - 1];
        let t = taken(ps, code, sell, n - 1);
        let u = p.price.units as int;
        assert(0 <= t <= p.quantity);
        assert(0 <= u * t) by (nonlinear_arith)
            requires
                0 <= u,
                0 <= t,
        ;
        assert(t == 0 ==> u * t == 0) by (nonlinear_arith);
        cost_is_exact_in_decimals(ps, code, sell, n - 1);
        let scale = fixed::SCALE as int;
        assert((u * (t * scale)) / scale == u * t) by {
            vstd::arithmetic::mul::lemma_mul_is_associative(u, t, scale);
            vstd::arithmetic::div_mod::lemma_div_by_multiple(u * t, scale);
        }
    }
}

/// The purchases of a code that is entered and then taken back leave no trace: the
/// positions and the trades are those without the entry.
pub proof fn added_and_removed<N: Scalar>(
    ps: Seq<PositionView<N>>,
    ts: Seq<TradeView<N>>,
    k: int,
    p: PositionView<N>,
    t: TradeView<N>,
    code: Seq<char>,
)
    requires
        0 <= k <= ps.len(),
        p.code == code,
        t.code == code,
        t.action == "buy"@,
    ensures
        without_code(ps.insert(k, p), code, ps.len() as int + 1) == without_code(
            ps,
            code,
            ps.len() as int,
        ),
        without_buys(ts.push(t), code, ts.len() as int + 1) == without_buys(ts, code, ts.len() as int),
{
    skip_inserted(ps, k, p, code, ps.len() as int);
    buys_prefix(ts.push(t), ts, code, ts.len() as int);
}

proof fn skip_inserted<N: Scalar>(
    ps: Seq<PositionView<N>>,
    k: int,
    p: PositionView<N>,
    code: Seq<char>,
    n: int,
)
    requires
        0 <= k <= ps.len(),
        0 <= n <= ps.len(),
        p.code == code,
    ensures
        n <= k ==> without_code(ps.insert(k, p), code, n) == without_code(ps, code, n),
        n >= k ==> without_code(ps.insert(k, p), code, n + 1) == without_code(ps, code, n),
    decreases n,
{
    reveal_with_fuel(without_code, 2);
    if n > 0 {
        skip_inserted(ps, k, p, code, n - 1);
        if n <= k {
            assert(ps.insert(k, p)[n - 1] == ps[n - 1]);
        }
        if n > k {
            assert(ps.insert(k, p)[n] == ps[n - 1]);
        }
    }
    if n == k {
        assert(ps.insert(k, p)[n] == p);
    }
}

proof fn buys_prefix<N: Scalar>(
    a: Seq<TradeView<N>>,
    b: Seq<TradeView<N>>,
    code: Seq<char>,
    n: int,
)
    requires
        n <= a.len(),
        n <= b.len(),
        forall|i: int| 0 <= i < n ==> a[i] == b[i],
    ensures
        without_buys(a, code, n) == without_buys(b, code, n),
    decreases n,
{
    if n > 0 {
        buys_prefix(a, b, code, n - 1);
    }
}

/// A code that is not in the book is not touched by taking it back.
pub proof fn nothing_to_remove<N: Scalar>(
    ps: Seq<PositionView<N>>,
    ts: Seq<TradeView<N>>,
    code: Seq<char>,
)
    requires
        forall|i: int| 0 <= i < ps.len() ==> (#[trigger] ps[i]).code != code,
        forall|i: int|
            0 <= i < ts.len() ==> !((#[trigger] ts[i]).code == code && ts[i].action == "buy"@),
    ensures
        without_code(ps, code, ps.len() as int) == ps,
        without_buys(ts, code, ts.len() as int) == ts,
{
    all_stay(ps, code, ps.len() as int);
    all_trades_stay(ts, code, ts.len() as int);
    assert(ps.take(ps.len() as int) =~= ps);
    assert(ts.take(ts.len() as int) =~= ts);
}

proof fn all_stay<N: Scalar>(ps: Seq<PositionView<N>>, code: Seq<char>, n: int)
    requires
        0 <= n <= ps.len(),
        forall|i: int| 0 <= i < ps.len() ==> (#[trigger] ps[i]).code != code,
    ensures
        without_code(ps, code, n) == ps.take(n),
    decreases n,
{
    if n > 0 {
        all_stay(ps, code, n - 1);
        assert(ps.take(n) =~= ps.take(n - 1).push(ps[n - 1]));
    } else {
        assert(ps.take(n) =~= Seq::<PositionView<N>>::empty());
    }
}

proof fn all_trades_stay<N: Scalar>(ts: Seq<TradeView<N>>, code: Seq<char>, n: int)
    requires
        0 <= n <= ts.len(),
        forall|i: int|
            0 <= i < ts.len() ==> !((#[trigger] ts[i]).code == code && ts[i].action == "buy"@),
    ensures
        without_buys(ts, code, n) == ts.take(n),
    decreases n,
{
    if n > 0 {
        all_trades_stay(ts, code, n - 1);
        assert(ts.take(n) =~= ts.take(n - 1).push(ts[n - 1]));
    } else {
        assert(ts.take(n) =~= Seq::<TradeView<N>>::empty());
    }
}

/// Taking a code back changes nothing of what was realised, by it or by any other.
pub proof fn removal_keeps_gains<N: Scalar>(
    ts: Seq<TradeView<N>>,
    code: Seq<char>,
    of: Option<Seq<char>>,
)
    ensures
        ({
            let after = without_buys(ts, code, ts.len() as int);
            realized(after, of, after.len() as int) == realized(ts, of, ts.len() as int)
        }),
{
    gains_stay(ts, code, of, ts.len() as int);
}

/// What the first trades realised depends on them alone.
pub proof fn gains_prefix<N: Scalar>(
    a: Seq<TradeView<N>>,
    b: Seq<TradeView<N>>,
    of: Option<Seq<char>>,
    n: int,
)
    requires
        n <= a.len(),
        n <= b.len(),
        forall|i: int| 0 <= i < n ==> a[i] == b[i],
    ensures
        realized(a, of, n) == realized(b, of, n),
    decreases n,
{
    if n > 0 {
        gains_prefix(a, b, of, n - 1);
    }
}

proof fn gains_stay<N: Scalar>(
    ts: Seq<TradeView<N>>,
    code: Seq<char>,
    of: Option<Seq<char>>,
    n: int,
)
    requires
        0 <= n <= ts.len(),
    ensures
        ({
            let after = without_buys(ts, code, n);
            realized(after, of, after.len() as int) == realized(ts, of, n)
        }),
    decreases n,
{
    if n > 0 {
        gains_stay(ts, code, of, n - 1);
        let before = without_buys(ts, code, n - 1);
        let after = without_buys(ts, code, n);
        reveal_strlit("buy");
        reveal_strlit("sell");
        assert("buy"@[0] == 'b' && "sell"@[0] == 's');
        if after.len() > before.len() {
            gains_prefix(after, before, of, before.len() as int);
        }
    }
}

/// The gains by code are the gains of each code.
pub proof fn gains_by_code_agree<N: Scalar>(ts: Seq<TradeView<N>>, n: int, code: Seq<char>)
    requires
        0 <= n <= ts.len(),
    ensures
        realized(ts, Some(code), n) == (if gained_by_code(ts, n).contains_key(code) {
            gained_by_code(ts, n)[code]
        } else {
            num::nil::<N>()
        }),
    decreases n,
{
    if n > 0 {
        gains_by_code_agree(ts, n - 1, code);
    }
}

// ---------------------------------------------------------------------------
// Rows and amounts that come from outside
// ---------------------------------------------------------------------------
/// The market of a row: the one that is noted, or else that of the code.
pub open spec fn row_market(noted: Seq<char>, code: Seq<char>) -> Option<Market> {
    match models::market_named(noted) {
        Some(m) => Some(m),
        None => match models::normalized(code) {
            Some((c, m)) => Some(m),
            None => None,
        },
    }
}

/// The market of a row of the watch list.
pub fn market_of_row(noted: &str, code: &str) -> (r: Option<Market>)
    ensures
        r == row_market(noted@, code@),
{
    match Market::from_str(noted) {
        Some(m) => Some(m),
        None => match normalize_code(code) {
            Some((_, m)) => Some(m),
            None => None,
        },
    }
}

/// Whether an amount can be a cash balance: finite and not below zero.
pub fn cash_allowed<N: Scalar>(amount: N) -> (r: bool)
    ensures
        r == (amount.bounded() && !amount.below(num::nil::<N>())),
{
    amount.is_finite() && !amount.less(num::zero::<N>())
}

proof fn entries_tell_their_sales<N: Scalar>(ts: Seq<TradeView<N>>, codes: Seq<Seq<char>>, n: int)
    requires
        0 <= n <= codes.len(),
        n <= usize::MAX,
    ensures
        forall|e: EntryView| #[trigger]
            sale_entries(ts, codes, n).contains(e) ==> e.key == 0 && e.tag < n && e.name
                == last_sale(ts, codes[e.tag as int], ts.len() as int),
    decreases n,
{
    if n > 0 {
        entries_tell_their_sales(ts, codes, n - 1);
        let before = sale_entries(ts, codes, n - 1);
        let now = sale_entries(ts, codes, n);
        assert forall|e: EntryView| #[trigger] now.contains(e) implies e.key == 0 && e.tag < n
            && e.name == last_sale(ts, codes[e.tag as int], ts.len() as int) by {
            let k = choose|k: int| 0 <= k < now.len() && now[k] == e;
            if k < before.len() {
                assert(before[k] == e);
                assert(before.contains(e));
            }
        }
    }
}

/// Of the codes that have been cleared none stands behind one that was sold earlier.
pub proof fn cleared_latest_first<N: Scalar>(
    ts: Seq<TradeView<N>>,
    codes: Seq<Seq<char>>,
    list: Seq<EntryView>,
)
    requires
        codes.len() <= usize::MAX,
        order::ordered(sale_entries(ts, codes, codes.len() as int), list),
    ensures
        forall|j: int, k: int|
            0 <= j < k < list.len() ==> !text::before(
                (#[trigger] latest_first(ts, codes, list)[j]).last_date,
                (#[trigger] latest_first(ts, codes, list)[k]).last_date,
            ),
{
    let n = list.len() as int;
    let all = sale_entries(ts, codes, codes.len() as int);
    let r = latest_first(ts, codes, list);
    entries_tell_their_sales(ts, codes, codes.len() as int);
    assert forall|j: int, k: int| 0 <= j < k < n implies !text::before(
        (#[trigger] r[j]).last_date,
        (#[trigger] r[k]).last_date,
    ) by {
        let a = list[n - 1 - j];
        let b = list[n - 1 - k];
        order::ordered_keeps(all, list, n - 1 - j);
        order::ordered_keeps(all, list, n - 1 - k);
        assert(all.contains(a) && all.contains(b));
        assert(r[j].last_date == a.name);
        assert(r[k].last_date == b.name);
        assert(!order::ahead(list[n - 1 - j], list[n - 1 - k]));
    }
}

} // verus!
