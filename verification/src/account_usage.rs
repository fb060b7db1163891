//! The account pill at the foot of the sidebar: which login the open chat
//! spends against, and how much of its plan is used.
//!
//! What is drawn is decided here as plain data: the pill, the card that it
//! opens, and the card's rows. How a reset time reads is the caller's, who
//! knows the time of day.

use vstd::prelude::*;
use vstd::string::*;

use crate::event::HarnessId;
use crate::fraction::{
    lemma_floor_is_two_percent, lemma_percent_is_at_most_hundred, lemma_percent_is_monotone,
    lemma_percent_is_next_to_the_hundredfold, Fraction, FLOOR_BITS,
};
use crate::text::same_text;

verus! {

/// A moment, in seconds and nanoseconds since the epoch.
#[derive(Clone, Copy, Debug, PartialEq, Eq, Structural)]
pub struct Moment {
    pub secs: i64,
    pub nanos: u32,
}

/// One window of a plan, and how much of it is used.
#[derive(Debug, PartialEq)]
pub struct AgentUsageWindow {
    pub label: String,
    pub used_fraction: Fraction,
    pub resets_at: Option<Moment>,
}

/// A login with a provider.
#[derive(Debug, PartialEq)]
pub struct AgentAccount {
    pub id: String,
    pub harness: HarnessId,
    pub email: Option<String>,
    pub display_name: Option<String>,
    pub plan_label: Option<String>,
    /// The login that its provider's chats spend against.
    pub active: bool,
    pub usage_windows: Vec<AgentUsageWindow>,
}

/// Shown in place of a meter where a provider reports no plan.
pub const USAGE_UNAVAILABLE: &'static str = "Usage unavailable";

/// `windows[k]` is the window that is closest to exhausted: of those whose use
/// is a number, the first that none exceeds. A first window whose use is not a
/// number hides the others.
pub open spec fn is_tightest(windows: Seq<AgentUsageWindow>, k: int) -> bool {
    &&& 0 <= k < windows.len()
    &&& if windows[0].used_fraction.is_nan() {
        k == 0
    } else {
        &&& !windows[k].used_fraction.is_nan()
        &&& forall|j: int|
            0 <= j < windows.len() && !(#[trigger] windows[j]).used_fraction.is_nan() ==> {
                &&& windows[j].used_fraction.rank() <= windows[k].used_fraction.rank()
                &&& j < k ==> windows[j].used_fraction.rank() < windows[k].used_fraction.rank()
            }
    }
}

/// There is one tightest window at most.
pub proof fn lemma_tightest_is_unique(windows: Seq<AgentUsageWindow>, k: int, l: int)
    requires
        is_tightest(windows, k),
        is_tightest(windows, l),
    ensures
        k == l,
{
}

/// The tightest of `windows`, where there is any window.
pub open spec fn tightest(windows: Seq<AgentUsageWindow>) -> Option<AgentUsageWindow> {
    if windows.len() == 0 {
        None
    } else {
        Some(windows[choose|k: int| is_tightest(windows, k)])
    }
}

/// The window that a plan is closest to exhausting. Of equals the earlier one
/// counts.
pub fn tightest_window(windows: &[AgentUsageWindow]) -> (r: Option<&AgentUsageWindow>)
    ensures
        match r {
            Some(window) => {
                &&& tightest(windows@) == Some(*window)
                &&& exists|k: int| #[trigger] is_tightest(windows@, k) && *window == windows@[k]
            },
            None => windows@.len() == 0,
        },
{
    if windows.len() == 0 {
        return None;
    }
    let mut worst: usize = 0;
    for i in 1..windows.len()
        invariant
            worst < i <= windows@.len(),
            is_tightest(windows@.take(i as int), worst as int),
    {
        let ghost seen = windows@.take(i + 1);
        assert(windows@.take(i as int) =~= seen.take(i as int));
        assert forall|j: int| 0 <= j < i implies seen[j] == windows@.take(i as int)[j] by {}
        if windows[i].used_fraction.exceeds(windows[worst].used_fraction) {
            worst = i;
        }
        assert(is_tightest(seen, worst as int));
    }
    assert(windows@.take(windows@.len() as int) =~= windows@);
    proof {
        assert(is_tightest(windows@, worst as int));
        let k = choose|k: int| is_tightest(windows@, k);
        lemma_tightest_is_unique(windows@, k, worst as int);
    }
    Some(&windows[worst])
}

/// The name that an account is shown by.
pub open spec fn label_of(account: AgentAccount) -> Seq<char> {
    match account.email {
        Some(email) => email@,
        None => match account.display_name {
            Some(name) => name@,
            None => "Unknown account"@,
        },
    }
}

/// The name that an account is shown by: the email that it signed in with,
/// else what the provider calls it.
pub fn account_label(account: &AgentAccount) -> (r: String)
    ensures
        r@ == label_of(*account),
{
    match &account.email {
        Some(email) => email.clone(),
        None => match &account.display_name {
            Some(name) => name.clone(),
            None => "Unknown account".to_owned(),
        },
    }
}

/// The decimal digit `d`.
pub open spec fn digit(d: nat) -> char {
    ('0' as nat + d) as char
}

/// `n` in decimal.
pub open spec fn decimal(n: nat) -> Seq<char>
    decreases n,
{
    if n < 10 {
        seq![digit(n)]
    } else {
        decimal(n / 10).push(digit(n % 10))
    }
}

/// The decimal digit `d` as a text.
fn digit_text(d: u32) -> (r: &'static str)
    requires
        d < 10,
    ensures
        r@ == seq![digit(d as nat)],
{
    proof {
        reveal_strlit("0");
        reveal_strlit("1");
        reveal_strlit("2");
        reveal_strlit("3");
        reveal_strlit("4");
        reveal_strlit("5");
        reveal_strlit("6");
        reveal_strlit("7");
        reveal_strlit("8");
        reveal_strlit("9");
    }
    let r: &'static str = match d {
        0 => "0",
        1 => "1",
        2 => "2",
        3 => "3",
        4 => "4",
        5 => "5",
        6 => "6",
        7 => "7",
        8 => "8",
        _ => "9",
    };
    assert(r@ =~= seq![digit(d as nat)]);
    r
}

/// `n` in decimal.
fn decimal_text(n: u32) -> (r: String)
    ensures
        r@ == decimal(n as nat),
    decreases n,
{
    if n < 10 {
        digit_text(n).to_owned()
    } else {
        let r: String = decimal_text(n / 10).concat(digit_text(n % 10));
        assert(r@ =~= decimal(n as nat));
        r
    }
}

/// A meter bar: the use that its color goes by, and how much of its width is
/// painted.
#[derive(Clone, Copy, Debug, PartialEq, Eq, Structural)]
pub struct Meter {
    pub level: Fraction,
    pub fill: Option<Fraction>,
}

/// The meter of a fraction. Where anything is used, at least the floor is
/// painted: tiny use must still show.
pub open spec fn meter_of(fraction: Fraction) -> Meter {
    let level = fraction.clamped();
    let floor = Fraction { bits: FLOOR_BITS };
    Meter {
        level,
        fill: if level.above(Fraction { bits: 0 }) {
            Some(
                if floor.above(level) {
                    floor
                } else {
                    level
                },
            )
        } else {
            None
        },
    }
}

/// What a meter bar shows of a fraction.
pub fn meter(fraction: Fraction) -> (r: Meter)
    ensures
        r == meter_of(fraction),
{
    let level: Fraction = fraction.clamp();
    let floor: Fraction = Fraction { bits: FLOOR_BITS };
    let fill: Option<Fraction> = if level.exceeds(Fraction { bits: 0 }) {
        if floor.exceeds(level) {
            Some(floor)
        } else {
            Some(level)
        }
    } else {
        None
    };
    Meter { level, fill }
}

/// What is painted of a meter is at least the floor and at most the whole, and
/// nothing is painted only where nothing is used.
pub proof fn lemma_meter_shows_any_use(fraction: Fraction)
    ensures
        meter_of(fraction).fill is Some <==> fraction.above(Fraction { bits: 0 }),
        meter_of(fraction).fill matches Some(fill) ==> !fill.is_nan() && FLOOR_BITS <= fill.rank()
            <= crate::fraction::ONE_BITS,
{
}

/// The number of percent that stands beside the meter of a fraction: that of
/// what is painted, and 0 where nothing is.
pub open spec fn percent_shown(fraction: Fraction) -> int {
    match meter_of(fraction).fill {
        Some(fill) => fill.percent(),
        None => 0,
    }
}

/// A fraction as it is shown beside its meter.
pub open spec fn percent_text(fraction: Fraction) -> Seq<char> {
    decimal(percent_shown(fraction) as nat) + "%"@
}

/// A fraction as it is shown beside its meter: rounded to whole percent,
/// between 0% and 100%, with the meter's own floor under any use at all. A use
/// beyond the plan shows as 100%.
pub fn percent_label(fraction: Fraction) -> (r: String)
    ensures
        r@ == percent_text(fraction),
{
    let percent: u32 = match meter(fraction).fill {
        Some(fill) => fill.to_percent(),
        None => 0,
    };
    decimal_text(percent).concat("%")
}

/// No percentage is beyond 100, and 0% is shown only where nothing is used.
pub proof fn lemma_percentage_shows_any_use(fraction: Fraction)
    ensures
        0 <= percent_shown(fraction) <= 100,
        percent_shown(fraction) == 0 <==> !fraction.above(Fraction { bits: 0 }),
{
    lemma_meter_shows_any_use(fraction);
    if let Some(fill) = meter_of(fraction).fill {
        let floor = Fraction { bits: FLOOR_BITS };
        lemma_percent_is_at_most_hundred(fill);
        lemma_percent_is_monotone(floor, fill);
        lemma_floor_is_two_percent();
    }
}

/// The greater of two uses never shows fewer percent.
pub proof fn lemma_percentage_is_monotone(f: Fraction, g: Fraction)
    requires
        !f.is_nan(),
        !g.is_nan(),
        f.rank() <= g.rank(),
    ensures
        percent_shown(f) <= percent_shown(g),
{
    lemma_percentage_shows_any_use(f);
    lemma_percentage_shows_any_use(g);
    if let (Some(a), Some(b)) = (meter_of(f).fill, meter_of(g).fill) {
        lemma_percent_is_monotone(a, b);
    }
}

/// `reset` is how `format_reset` has it read that a window resets at `at`.
pub open spec fn reads_as<F: Fn(Option<Moment>) -> Option<String>>(
    format_reset: &F,
    at: Option<Moment>,
    reset: Option<String>,
) -> bool {
    call_ensures(*format_reset, (at,), reset)
}

/// What is shown of one window: its percentage, the use that the percentage's
/// color goes by, its meter, and when it resets.
#[derive(Debug, PartialEq)]
pub struct WindowRow {
    pub percent: String,
    pub accent: Fraction,
    pub meter: Meter,
    pub reset: Option<String>,
}

impl WindowRow {
    /// This is what is shown of `window`.
    pub open spec fn shows<F: Fn(Option<Moment>) -> Option<String>>(
        self,
        window: AgentUsageWindow,
        format_reset: &F,
    ) -> bool {
        &&& self.percent@ == percent_text(window.used_fraction)
        &&& self.accent == window.used_fraction
        &&& self.meter == meter_of(window.used_fraction)
        &&& reads_as(format_reset, window.resets_at, self.reset)
    }
}

/// What is shown of one window.
fn window_row<F: Fn(Option<Moment>) -> Option<String>>(
    window: &AgentUsageWindow,
    format_reset: &F,
) -> (r: WindowRow)
    requires
        forall|at: Option<Moment>| call_requires(*format_reset, (at,)),
    ensures
        r.shows(*window, format_reset),
{
    WindowRow {
        percent: percent_label(window.used_fraction),
        accent: window.used_fraction,
        meter: meter(window.used_fraction),
        reset: format_reset(window.resets_at),
    }
}

/// One row of the card's list of other accounts. Without a window its use is
/// not available.
#[derive(Debug, PartialEq)]
pub struct OtherRow {
    pub brand: HarnessId,
    pub label: String,
    pub usage: Option<WindowRow>,
}

impl OtherRow {
    /// This is the row of `account`: its name and its tightest window.
    pub open spec fn shows<F: Fn(Option<Moment>) -> Option<String>>(
        self,
        account: AgentAccount,
        format_reset: &F,
    ) -> bool {
        &&& self.brand == account.harness
        &&& self.label@ == label_of(account)
        &&& match tightest(account.usage_windows@) {
            Some(window) => self.usage matches Some(row) && row.shows(window, format_reset),
            None => self.usage is None,
        }
    }
}

/// The row of an account in the card's list of other accounts.
pub fn render_other_row<F: Fn(Option<Moment>) -> Option<String>>(
    account: &AgentAccount,
    format_reset: &F,
) -> (r: OtherRow)
    requires
        forall|at: Option<Moment>| call_requires(*format_reset, (at,)),
    ensures
        r.shows(*account, format_reset),
{
    OtherRow {
        brand: account.harness,
        label: account_label(account),
        usage: match tightest_window(account.usage_windows.as_slice()) {
            Some(window) => Some(window_row(window, format_reset)),
            None => None,
        },
    }
}

/// One meter of the card, under the label of its window.
#[derive(Debug, PartialEq)]
pub struct MeterRow {
    pub label: String,
    pub row: WindowRow,
}

/// The card that the pill opens: the open chat's account in full, then every
/// other login. Without a meter its use is not available.
#[derive(Debug, PartialEq)]
pub struct Card {
    pub brand: HarnessId,
    pub active: bool,
    pub label: String,
    pub plan: Option<String>,
    pub meters: Vec<MeterRow>,
    pub others: Vec<OtherRow>,
}

/// `account` is not the one with the id `id`.
pub open spec fn other_than(id: Seq<char>, account: AgentAccount) -> Option<AgentAccount> {
    if account.id@ != id {
        Some(account)
    } else {
        None
    }
}

/// The accounts of a snapshot but the one with the id `id`, in order; none
/// where there is no snapshot.
pub open spec fn other_accounts(
    snapshot: Option<Seq<AgentAccount>>,
    id: Seq<char>,
) -> Seq<AgentAccount> {
    match snapshot {
        Some(accounts) => accounts.filter_map(|a: AgentAccount| other_than(id, a)),
        None => Seq::empty(),
    }
}

/// `rows` are the meters of `windows`, one for each and in order.
pub open spec fn show_windows<F: Fn(Option<Moment>) -> Option<String>>(
    rows: Seq<MeterRow>,
    windows: Seq<AgentUsageWindow>,
    format_reset: &F,
) -> bool {
    &&& rows.len() == windows.len()
    &&& forall|i: int|
        0 <= i < rows.len() ==> (#[trigger] rows[i]).label@ == windows[i].label@
            && rows[i].row.shows(windows[i], format_reset)
}

/// `rows` are the rows of `accounts`, one for each and in order.
pub open spec fn show_accounts<F: Fn(Option<Moment>) -> Option<String>>(
    rows: Seq<OtherRow>,
    accounts: Seq<AgentAccount>,
    format_reset: &F,
) -> bool {
    &&& rows.len() == accounts.len()
    &&& forall|i: int| 0 <= i < rows.len() ==> (#[trigger] rows[i]).shows(accounts[i], format_reset)
}

impl Card {
    /// This is the card of `account` beside the other accounts of `snapshot`.
    pub open spec fn shows<F: Fn(Option<Moment>) -> Option<String>>(
        self,
        account: AgentAccount,
        snapshot: Option<Seq<AgentAccount>>,
        format_reset: &F,
    ) -> bool {
        &&& self.brand == account.harness
        &&& self.active == account.active
        &&& self.label@ == label_of(account)
        &&& self.plan.deep_view() == account.plan_label.deep_view()
        &&& show_windows(self.meters@, account.usage_windows@, format_reset)
        &&& show_accounts(
            self.others@,
            other_accounts(snapshot, account.id@),
            format_reset,
        )
    }
}

/// The accounts of a snapshot that may be missing.
pub open spec fn accounts_of(snapshot: Option<&Vec<AgentAccount>>) -> Option<Seq<AgentAccount>> {
    match snapshot {
        Some(accounts) => Some(accounts@),
        None => None,
    }
}

/// The rows of all accounts but the one with the id `id`.
fn other_rows<F: Fn(Option<Moment>) -> Option<String>>(
    accounts: &Vec<AgentAccount>,
    id: &str,
    format_reset: &F,
) -> (r: Vec<OtherRow>)
    requires
        forall|at: Option<Moment>| call_requires(*format_reset, (at,)),
    ensures
        show_accounts(r@, other_accounts(Some(accounts@), id@), format_reset),
{
    let mut rows: Vec<OtherRow> = Vec::new();
    let ghost f = |a: AgentAccount| other_than(id@, a);
    for i in 0..accounts.len()
        invariant
            f == |a: AgentAccount| other_than(id@, a),
            forall|at: Option<Moment>| call_requires(*format_reset, (at,)),
            show_accounts(rows@, accounts@.take(i as int).filter_map(f), format_reset),
    {
        proof {
            accounts@.lemma_filter_map_take_succ(f, i as int);
        }
        if !same_text(accounts[i].id.as_str(), id) {
            rows.push(render_other_row(&accounts[i], format_reset));
        }
    }
    assert(accounts@.take(accounts@.len() as int) =~= accounts@);
    rows
}

/// The card of the open chat's account: all of its windows, not just the
/// tightest, and every other login.
pub fn render_card<F: Fn(Option<Moment>) -> Option<String>>(
    account: &AgentAccount,
    snapshot: Option<&Vec<AgentAccount>>,
    format_reset: &F,
) -> (r: Card)
    requires
        forall|at: Option<Moment>| call_requires(*format_reset, (at,)),
    ensures
        r.shows(*account, accounts_of(snapshot), format_reset),
{
    let others: Vec<OtherRow> = match snapshot {
        Some(accounts) => other_rows(accounts, account.id.as_str(), format_reset),
        None => Vec::new(),
    };
    let mut meters: Vec<MeterRow> = Vec::new();
    for i in 0..account.usage_windows.len()
        invariant
            forall|at: Option<Moment>| call_requires(*format_reset, (at,)),
            show_windows(meters@, account.usage_windows@.take(i as int), format_reset),
    {
        let window: &AgentUsageWindow = &account.usage_windows[i];
        meters.push(
            MeterRow { label: window.label.clone(), row: window_row(window, format_reset) },
        );
    }
    assert(account.usage_windows@.take(account.usage_windows@.len() as int)
        =~= account.usage_windows@);
    Card {
        brand: account.harness,
        active: account.active,
        label: account_label(account),
        plan: match &account.plan_label {
            Some(plan) => Some(plan.clone()),
            None => None,
        },
        meters,
        others,
    }
}

/// The line under the pill's name: the window's label and, where it is known,
/// when it resets.
pub open spec fn caption_of(label: Seq<char>, reset: Option<Seq<char>>) -> Seq<char> {
    match reset {
        Some(reset) => label + " · "@ + reset,
        None => label,
    }
}

/// The line under the pill's name.
pub fn caption(label: &str, reset: &Option<String>) -> (r: String)
    ensures
        r@ == caption_of(label@, reset.deep_view()),
{
    match reset {
        Some(reset) => label.to_owned().concat(" · ").concat(reset.as_str()),
        None => label.to_owned(),
    }
}

/// The use that the pill shows.
#[derive(Debug, PartialEq)]
pub struct PillUsage {
    pub percent: String,
    pub accent: Fraction,
    pub meter: Meter,
    pub caption: String,
}

/// The pill: the brand mark, the provider's name and the tightest window.
/// Without a window the use is not available.
#[derive(Debug, PartialEq)]
pub struct Pill {
    pub brand: HarnessId,
    pub name: HarnessId,
    pub usage: Option<PillUsage>,
}

impl PillUsage {
    /// This is what the pill shows of `window`.
    pub open spec fn shows<F: Fn(Option<Moment>) -> Option<String>>(
        self,
        window: AgentUsageWindow,
        format_reset: &F,
    ) -> bool {
        &&& self.percent@ == percent_text(window.used_fraction)
        &&& self.accent == window.used_fraction
        &&& self.meter == meter_of(window.used_fraction)
        &&& exists|reset: Option<String>| #[trigger]
            reads_as(format_reset, window.resets_at, reset) && self.caption@ == caption_of(
                window.label@,
                reset.deep_view(),
            )
    }
}

impl Pill {
    /// This is the pill of a chat on `harness` that spends against `account`.
    pub open spec fn shows<F: Fn(Option<Moment>) -> Option<String>>(
        self,
        harness: HarnessId,
        account: AgentAccount,
        format_reset: &F,
    ) -> bool {
        &&& self.brand == account.harness
        &&& self.name == harness
        &&& match tightest(account.usage_windows@) {
            Some(window) => self.usage matches Some(usage) && usage.shows(window, format_reset),
            None => self.usage is None,
        }
    }
}

/// The pill of the open chat. It is hidden where no chat is open, and where
/// the chat's harness has no active account: no claim is made about which
/// login is spent.
pub fn render<F: Fn(Option<Moment>) -> Option<String>>(
    harness: Option<HarnessId>,
    account: Option<&AgentAccount>,
    format_reset: &F,
) -> (r: Option<Pill>)
    requires
        forall|at: Option<Moment>| call_requires(*format_reset, (at,)),
    ensures
        r is Some <==> harness is Some && account is Some,
        r matches Some(pill) ==> pill.shows(harness->0, *account->0, format_reset),
{
    let harness: HarnessId = harness?;
    let account: &AgentAccount = account?;
    let usage: Option<PillUsage> = match tightest_window(account.usage_windows.as_slice()) {
        Some(window) => {
            let row: WindowRow = window_row(window, format_reset);
            Some(
                PillUsage {
                    percent: row.percent,
                    accent: row.accent,
                    meter: row.meter,
                    caption: caption(window.label.as_str(), &row.reset),
                },
            )
        },
        None => None,
    };
    Some(Pill { brand: account.harness, name: harness, usage })
}

/// A chat of the sidebar, with the configuration that it was given, if any.
#[derive(Clone, Copy, Debug, PartialEq, Eq, Structural)]
pub struct ChatRow {
    pub config: Option<ChatConfig>,
}

/// The configuration of a chat.
#[derive(Clone, Copy, Debug, PartialEq, Eq, Structural)]
pub struct ChatConfig {
    pub harness: HarnessId,
}

/// The harness that the selected chat runs on. Where no chat is selected, or
/// it has no configuration, there is none: nothing is guessed from a default.
pub fn open_chat_harness(selected: Option<&ChatRow>) -> (r: Option<HarnessId>)
    ensures
        r == (match selected {
            Some(chat) => match chat.config {
                Some(config) => Some(config.harness),
                None => None,
            },
            None => None,
        }),
{
    Some(selected?.config?.harness)
}

/// The account in view is not among the others, and no other one is left out.
pub proof fn lemma_card_lists_every_other_account(
    accounts: Seq<AgentAccount>,
    id: Seq<char>,
    account: AgentAccount,
)
    ensures
        other_accounts(Some(accounts), id).contains(account) <==> accounts.contains(account)
            && account.id@ != id,
    decreases accounts.len(),
{
    broadcast use vstd::seq_lib::group_seq_properties;

    let f = |a: AgentAccount| other_than(id, a);
    if accounts.len() > 0 {
        let rest = accounts.drop_last();
        lemma_card_lists_every_other_account(rest, id, account);
        assert(accounts =~= rest.push(accounts.last()));
        assert(accounts.contains(account) <==> rest.contains(account) || account
            == accounts.last());
        let kept = rest.filter_map(f);
        assert(accounts.filter_map(f) =~= if other_than(id, accounts.last()) is Some {
            kept.push(accounts.last())
        } else {
            kept
        });
        assert(kept.push(accounts.last()).contains(account) <==> kept.contains(account) || account
            == accounts.last());
    }
}

/// An account is shown by its email, active or not; without one by the name
/// that the provider gives; and as unknown only where it has neither.
pub proof fn lemma_account_is_shown_by_its_email(account: AgentAccount)
    ensures
        account.email matches Some(email) ==> label_of(account) == email@,
        account.email is None ==> {
            &&& account.display_name matches Some(name) ==> label_of(account) == name@
            &&& account.display_name is None ==> label_of(account) == "Unknown account"@
        },
{
}

/// Where there is a window, one is the tightest.
proof fn lemma_some_window_is_tightest(windows: Seq<AgentUsageWindow>) -> (k: int)
    requires
        windows.len() > 0,
    ensures
        is_tightest(windows, k),
    decreases windows.len(),
{
    if windows.len() == 1 {
        0
    } else {
        let rest = windows.drop_last();
        let k = lemma_some_window_is_tightest(rest);
        assert(windows =~= rest.push(windows.last()));
        lemma_one_more_window_at(rest, windows.last(), k)
    }
}

/// Where the tightest window stands once one more has come.
proof fn lemma_one_more_window_at(
    windows: Seq<AgentUsageWindow>,
    window: AgentUsageWindow,
    k: int,
) -> (next: int)
    requires
        is_tightest(windows, k),
    ensures
        is_tightest(windows.push(window), next),
        next == (if window.used_fraction.above(windows[k].used_fraction) {
            windows.len() as int
        } else {
            k
        }),
{
    let more = windows.push(window);
    let next = if window.used_fraction.above(windows[k].used_fraction) {
        windows.len() as int
    } else {
        k
    };
    assert forall|j: int| 0 <= j < windows.len() implies more[j] == windows[j] by {}
    assert(more[windows.len() as int] == window);
    next
}

/// One more window is the tightest exactly where its use exceeds that of the
/// tightest so far; of equals the earlier one counts. A single window is the
/// tightest, and of none there is none.
pub proof fn lemma_one_more_window(windows: Seq<AgentUsageWindow>, window: AgentUsageWindow)
    ensures
        tightest(Seq::empty()) is None,
        tightest(seq![window]) == Some(window),
        tightest(windows) matches Some(worst) ==> tightest(windows.push(window)) == Some(
            if window.used_fraction.above(worst.used_fraction) {
                window
            } else {
                worst
            },
        ),
        windows.len() > 0 ==> tightest(windows) is Some,
{
    let one = seq![window];
    assert(is_tightest(one, 0));
    let c = choose|k: int| is_tightest(one, k);
    lemma_tightest_is_unique(one, c, 0);
    if windows.len() > 0 {
        let k = lemma_some_window_is_tightest(windows);
        let l = choose|k: int| is_tightest(windows, k);
        lemma_tightest_is_unique(windows, k, l);
        let next = lemma_one_more_window_at(windows, window, k);
        let more = windows.push(window);
        let m = choose|k: int| is_tightest(more, k);
        lemma_tightest_is_unique(more, m, next);
    }
}

/// The number that a text of decimal digits reads as.
pub open spec fn reads_as_number(text: Seq<char>) -> int
    decreases text.len(),
{
    if text.len() == 0 {
        0
    } else {
        10 * reads_as_number(text.drop_last()) + (text.last() as int - 0x30)
    }
}

/// A number in decimal reads back as itself. It is made of digits, and of no
/// more of them than it needs.
pub proof fn lemma_decimal_reads_back(n: nat)
    ensures
        reads_as_number(decimal(n)) == n,
        decimal(n).len() > 0,
        decimal(n).len() > 1 ==> decimal(n)[0] != '0',
        forall|i: int| 0 <= i < decimal(n).len() ==> '0' <= #[trigger] decimal(n)[i] <= '9',
    decreases n,
{
    if n < 10 {
        assert(decimal(n).drop_last() =~= Seq::empty());
        assert(reads_as_number(Seq::<char>::empty()) == 0);
        assert(decimal(n)[0] as int == 0x30 + n);
    } else {
        lemma_decimal_reads_back(n / 10);
        assert(decimal(n).drop_last() =~= decimal(n / 10));
        assert(decimal(n).last() as int == 0x30 + n % 10);
        if decimal(n / 10).len() == 1 {
            let d = decimal(n / 10)[0];
            if d == '0' {
                assert(decimal(n / 10).drop_last() =~= Seq::empty());
                assert(reads_as_number(Seq::<char>::empty()) == 0);
                assert(decimal(n / 10).last() == '0');
                assert(reads_as_number(decimal(n / 10)) == 0);
            }
        }
    }
}

/// What stands beside a meter is a number of percent and the sign of them: the
/// percentage of the fraction itself from the floor up, that of the floor for
/// any lesser use, and 0 for none.
pub proof fn lemma_percentage_is_that_of_the_fraction(fraction: Fraction)
    ensures
        ({
            let text = percent_text(fraction);
            let shown = reads_as_number(text.drop_last());
            let zero = Fraction { bits: 0 };
            let floor = Fraction { bits: 0x3c75_c28f };
            &&& text.len() >= 2
            &&& text.last() == '%'
            &&& !fraction.above(zero) ==> shown == 0
            &&& fraction.above(zero) && floor.above(fraction) ==> shown == floor.percent()
            &&& fraction.above(zero) && !floor.above(fraction) ==> shown == fraction.percent()
        }),
{
    lemma_percentage_shows_any_use(fraction);
    reveal_strlit("%");
    let shown = decimal(percent_shown(fraction) as nat);
    lemma_decimal_reads_back(percent_shown(fraction) as nat);
    assert(percent_text(fraction).drop_last() =~= shown);
    if fraction.rank() > crate::fraction::ONE_BITS && !fraction.is_nan() {
        lemma_percent_is_next_to_the_hundredfold(fraction);
        lemma_percent_is_next_to_the_hundredfold(fraction.clamped());
    }
}

/// A meter is painted exactly where anything is used: as far as the fraction
/// says, but never less than the floor and never more than the whole. Its
/// color goes by the use itself, as far as that fits.
pub proof fn lemma_meter_is_painted_as_far_as_used(fraction: Fraction)
    ensures
        ({
            let meter = meter_of(fraction);
            let zero = Fraction { bits: 0 };
            let floor = Fraction { bits: 0x3c75_c28f };
            let whole = Fraction { bits: 0x3f80_0000 };
            &&& !fraction.above(zero) ==> meter.fill is None
            &&& fraction.above(zero) && floor.above(fraction) ==> meter.fill == Some(floor)
            &&& !floor.above(fraction) && fraction.above(zero) && !fraction.above(whole)
                ==> meter.fill == Some(fraction)
            &&& fraction.above(whole) ==> meter.fill == Some(whole) && meter.level == whole
            &&& zero.above(fraction) ==> meter.level == zero
            &&& !zero.above(fraction) && !fraction.above(whole) ==> meter.level == fraction
        }),
{
}

/// A row shows the percentage and the meter of its window, is colored by the
/// window's use, and says of the reset what `format_reset` has it read.
pub proof fn lemma_row_shows_its_window<F: Fn(Option<Moment>) -> Option<String>>(
    row: WindowRow,
    window: AgentUsageWindow,
    format_reset: &F,
)
    requires
        row.shows(window, format_reset),
    ensures
        row.percent@ == percent_text(window.used_fraction),
        row.accent == window.used_fraction,
        row.meter == meter_of(window.used_fraction),
        call_ensures(*format_reset, (window.resets_at,), row.reset),
{
}

/// The row of another account shows its brand, its name and its tightest
/// window, whatever else the account is; where it has no window it shows none.
pub proof fn lemma_other_row_shows_its_account<F: Fn(Option<Moment>) -> Option<String>>(
    row: OtherRow,
    account: AgentAccount,
    format_reset: &F,
)
    requires
        row.shows(account, format_reset),
    ensures
        row.brand == account.harness,
        row.label@ == label_of(account),
        account.usage_windows@.len() == 0 ==> row.usage is None,
        account.usage_windows@.len() > 0 ==> row.usage is Some && tightest(
            account.usage_windows@,
        ) is Some && row.usage->0.shows(tightest(account.usage_windows@)->0, format_reset),
{
    if account.usage_windows@.len() > 0 {
        lemma_one_more_window(account.usage_windows@, account.usage_windows@[0]);
    }
}

/// The card shows its account's brand, state, name and plan, one meter for
/// each window in order under the window's label, and one row for each other
/// account in order.
pub proof fn lemma_card_shows_everything<F: Fn(Option<Moment>) -> Option<String>>(
    card: Card,
    account: AgentAccount,
    snapshot: Option<Seq<AgentAccount>>,
    format_reset: &F,
)
    requires
        card.shows(account, snapshot, format_reset),
    ensures
        card.brand == account.harness,
        card.active == account.active,
        card.label@ == label_of(account),
        card.plan is Some <==> account.plan_label is Some,
        card.plan matches Some(plan) ==> plan@ == account.plan_label->0@,
        card.meters@.len() == account.usage_windows@.len(),
        forall|i: int|
            0 <= i < card.meters@.len() ==> (#[trigger] card.meters@[i]).label@
                == account.usage_windows@[i].label@ && card.meters@[i].row.shows(
                account.usage_windows@[i],
                format_reset,
            ),
        card.others@.len() == other_accounts(snapshot, account.id@).len(),
        forall|i: int|
            0 <= i < card.others@.len() ==> (#[trigger] card.others@[i]).shows(
                other_accounts(snapshot, account.id@)[i],
                format_reset,
            ),
        snapshot is None ==> card.others@.len() == 0,
{
}

/// The other accounts are those of the snapshot with another id, each as often
/// as it is there and in its order: one more account is added behind them
/// exactly where its id is another.
pub proof fn lemma_one_more_account(
    accounts: Seq<AgentAccount>,
    account: AgentAccount,
    id: Seq<char>,
)
    ensures
        other_accounts(None, id).len() == 0,
        other_accounts(Some(Seq::empty()), id).len() == 0,
        account.id@ != id ==> other_accounts(Some(accounts.push(account)), id) == other_accounts(
            Some(accounts),
            id,
        ).push(account),
        account.id@ == id ==> other_accounts(Some(accounts.push(account)), id) == other_accounts(
            Some(accounts),
            id,
        ),
{
    let f = |a: AgentAccount| other_than(id, a);
    let more = accounts.push(account);
    more.lemma_filter_map_take_succ(f, accounts.len() as int);
    assert(more.take(accounts.len() as int) =~= accounts);
    assert(more.take(more.len() as int) =~= more);
    assert(Seq::<AgentAccount>::empty().filter_map(f) =~= Seq::empty());
    if account.id@ != id {
        assert(more.filter_map(f) =~= accounts.filter_map(f).push(account));
    } else {
        assert(more.filter_map(f) =~= accounts.filter_map(f));
    }
}

/// A snapshot is the list that it holds.
pub proof fn lemma_snapshot_is_its_list(snapshot: Option<&Vec<AgentAccount>>)
    ensures
        snapshot matches Some(accounts) ==> accounts_of(snapshot) == Some(accounts@),
        snapshot is None ==> accounts_of(snapshot) is None,
{
}

/// The pill shows the brand of the account, the name of the chat's harness and
/// the account's tightest window: its percentage, its meter, its label and,
/// where it is known, its reset behind a dot.
pub proof fn lemma_pill_shows_its_account<F: Fn(Option<Moment>) -> Option<String>>(
    pill: Pill,
    harness: HarnessId,
    account: AgentAccount,
    format_reset: &F,
)
    requires
        pill.shows(harness, account, format_reset),
    ensures
        pill.brand == account.harness,
        pill.name == harness,
        account.usage_windows@.len() == 0 ==> pill.usage is None,
        account.usage_windows@.len() > 0 ==> {
            &&& pill.usage matches Some(usage)
            &&& tightest(account.usage_windows@) matches Some(window)
            &&& usage.percent@ == percent_text(window.used_fraction)
            &&& usage.accent == window.used_fraction
            &&& usage.meter == meter_of(window.used_fraction)
            &&& exists|reset: Option<String>| #[trigger]
                call_ensures(*format_reset, (window.resets_at,), reset) && (match reset {
                    Some(reset) => usage.caption@ == window.label@ + " · "@ + reset@,
                    None => usage.caption@ == window.label@,
                })
        },
{
    if account.usage_windows@.len() > 0 {
        lemma_one_more_window(account.usage_windows@, account.usage_windows@[0]);
        let window = tightest(account.usage_windows@)->0;
        let usage = pill.usage->0;
        let reset = choose|reset: Option<String>| #[trigger]
            reads_as(format_reset, window.resets_at, reset) && usage.caption@ == caption_of(
                window.label@,
                reset.deep_view(),
            );
        assert(call_ensures(*format_reset, (window.resets_at,), reset));
    }
}

/// The line under the pill's name begins with the window's label. A known
/// reset follows behind a dot between spaces; without one nothing does.
pub proof fn lemma_caption_is_label_and_reset(label: Seq<char>, reset: Seq<char>)
    ensures
        caption_of(label, None) == label,
        ({
            let line = caption_of(label, Some(reset));
            &&& line.len() == label.len() + 3 + reset.len()
            &&& line.take(label.len() as int) == label
            &&& line.subrange(label.len() as int, label.len() as int + 3) == seq![' ', '·', ' ']
            &&& line.skip(label.len() as int + 3) == reset
        }),
{
    reveal_strlit(" · ");
    let line = caption_of(label, Some(reset));
    assert(line.take(label.len() as int) =~= label);
    assert(line.subrange(label.len() as int, label.len() as int + 3) =~= seq![' ', '·', ' ']);
    assert(line.skip(label.len() as int + 3) =~= reset);
}

} // verus!
