//! The text of the pages, with its colours.

use crate::api::{DatasetAccess, DatasetAccessStatus};
use crate::calendar::{date_text, days_from_monday, month_text, spaced_stamp_text, ymd_of, Date};
use crate::error::TickError;
use crate::layout::{data_path, forward_slashes, to_forward_slashes, Layout};
use crate::path::{is_under, parent, parent_of, relative_text, relative_text_of};
use crate::text::{
    concat2, concat3, concat4, decimal, decimal_of, ends_with, lower, opt_text, pad_left, pad_right,
    padded_left, padded_right, repeat_char, repeated, same_text, starts_with, texts, upper, uppered,
};
use crate::tui::browser::RemoteListTui;
use crate::tui::coverage::{
    compact_count, completion_bar, render_completion_bar, spinner_frame, state_words,
    sync_adjusted_day_totals, synced_total, syncs_day,
};
use crate::tui::model::{
    AccountIdentity, AccountLoginSession, AccountStep, AccountView, ActiveDaySync,
    ApiKeyPromptState, DatasetView, DayCoverage, DayState,
};
use vstd::prelude::*;

verus! {

// ---------------------------------------------------------------------------
// Coloured text
// ---------------------------------------------------------------------------

/// A colour.
#[derive(Debug, Clone, Copy, PartialEq, Eq, Structural)]
pub enum Tone {
    Plain,
    Dim,
    Cyan,
    Green,
    Yellow,
    Red,
}

/// A piece of text of one colour.
#[derive(Debug, PartialEq, Eq)]
pub struct Piece {
    pub text: String,
    pub tone: Tone,
    pub bold: bool,
    pub reversed: bool,
}

/// A piece of text of one colour.
pub struct PieceView {
    pub text: Seq<char>,
    pub tone: Tone,
    pub bold: bool,
    pub reversed: bool,
}

impl View for Piece {
    type V = PieceView;

    open spec fn view(&self) -> PieceView {
        PieceView {
            text: self.text@,
            tone: self.tone,
            bold: self.bold,
            reversed: self.reversed,
        }
    }
}

/// A line of pieces.
pub open spec fn line_view(line: Seq<Piece>) -> Seq<PieceView> {
    line.map_values(|piece: Piece| piece@)
}

/// Lines of pieces.
pub open spec fn lines_view(lines: Seq<Vec<Piece>>) -> Seq<Seq<PieceView>> {
    lines.map_values(|line: Vec<Piece>| line_view(line@))
}

/// Text without colour.
pub open spec fn raw(text: Seq<char>) -> PieceView {
    PieceView { text, tone: Tone::Plain, bold: false, reversed: false }
}

/// Text of a colour.
pub open spec fn toned(text: Seq<char>, tone: Tone) -> PieceView {
    PieceView { text, tone, bold: false, reversed: false }
}

/// Bold text of a colour.
pub open spec fn strong(text: Seq<char>, tone: Tone) -> PieceView {
    PieceView { text, tone, bold: true, reversed: false }
}

/// Text of a colour.
fn piece(text: String, tone: Tone, bold: bool) -> (out: Piece)
    ensures
        out@ == (PieceView { text: text@, tone, bold, reversed: false }),
{
    Piece { text, tone, bold, reversed: false }
}

/// Puts a piece at the end of a line.
fn push_piece(line: &mut Vec<Piece>, part: Piece)
    ensures
        line_view(final(line)@) == line_view(old(line)@).push(part@),
{
    let ghost view = part@;
    line.push(part);
    assert(line_view(line@) =~= line_view(old(line)@).push(view));
}

/// A line without pieces.
fn empty_line() -> (out: Vec<Piece>)
    ensures
        line_view(out@) == Seq::<PieceView>::empty(),
{
    let out: Vec<Piece> = Vec::new();
    assert(line_view(out@) =~= Seq::<PieceView>::empty());
    out
}

/// A line of one piece.
fn line_of(part: Piece) -> (out: Vec<Piece>)
    ensures
        line_view(out@) == seq![part@],
{
    let mut out = empty_line();
    push_piece(&mut out, part);
    assert(line_view(out@) =~= seq![part@]);
    out
}

/// Puts a line at the end.
fn push_row(lines: &mut Vec<Vec<Piece>>, line: Vec<Piece>)
    ensures
        lines_view(final(lines)@) == lines_view(old(lines)@).push(line_view(line@)),
{
    let ghost view = line_view(line@);
    lines.push(line);
    assert(lines_view(lines@) =~= lines_view(old(lines)@).push(view));
}

/// No lines.
fn no_rows() -> (out: Vec<Vec<Piece>>)
    ensures
        lines_view(out@) == Seq::<Seq<PieceView>>::empty(),
{
    let out: Vec<Vec<Piece>> = Vec::new();
    assert(lines_view(out@) =~= Seq::<Seq<PieceView>>::empty());
    out
}

// ---------------------------------------------------------------------------
// The list of datasets
// ---------------------------------------------------------------------------

/// The colour of a kind of access.
pub fn access_color(access: Option<DatasetAccess>) -> (out: Tone)
    ensures
        out == access_tone(access),
{
    match access {
        Some(access) => match access.status {
            DatasetAccessStatus::Open => Tone::Green,
            DatasetAccessStatus::Preview => Tone::Yellow,
            DatasetAccessStatus::Restricted => Tone::Red,
        },
        None => Tone::Dim,
    }
}

/// The colour of a kind of access.
pub open spec fn access_tone(access: Option<DatasetAccess>) -> Tone {
    match access {
        Some(access) => match access.status {
            DatasetAccessStatus::Open => Tone::Green,
            DatasetAccessStatus::Preview => Tone::Yellow,
            DatasetAccessStatus::Restricted => Tone::Red,
        },
        None => Tone::Dim,
    }
}

/// The line of a dataset in the list: its access, a star where it is bookmarked, its name.
pub open spec fn dataset_row(app: RemoteListTui, i: int) -> Seq<PieceView> {
    let entry = app.datasets@[i];
    seq![
        toned(
            padded_right("["@ + entry@.status_label() + "]"@, 12) + " "@,
            access_tone(entry.access),
        ),
        toned(
            if app.bookmarks@.contains(entry.dataset@) {
                "* "@
            } else {
                "  "@
            },
            Tone::Yellow,
        ),
        strong(entry.dataset@, Tone::Plain),
    ]
}

/// The lines of the list.
pub open spec fn browser_rows(app: RemoteListTui) -> Seq<Seq<PieceView>> {
    if app.filtered_indices@.len() == 0 {
        seq![seq![raw("No datasets match the current search"@)]]
    } else {
        app.filtered_indices@.map_values(|i: usize| dataset_row(app, i as int))
    }
}

impl RemoteListTui {
    /// The line of a dataset in the list.
    fn dataset_line(&self, i: usize) -> (out: Vec<Piece>)
        requires
            self.valid(),
            i < self.datasets@.len(),
        ensures
            line_view(out@) == dataset_row(*self, i as int),
    {
        let entry = &self.datasets[i];
        let badge = entry.access_badge();
        let badge = pad_right(badge.as_str(), 12);
        let star = if self.is_bookmarked(entry.dataset.as_str()) {
            "* "
        } else {
            "  "
        };
        let mut out = empty_line();
        push_piece(
            &mut out,
            piece(concat2(badge.as_str(), " "), access_color(entry.access), false),
        );
        push_piece(&mut out, piece(star.to_owned(), Tone::Yellow, false));
        push_piece(&mut out, piece(entry.dataset.clone(), Tone::Plain, true));
        assert(line_view(out@) =~= dataset_row(*self, i as int));
        out
    }

    /// The lines of the list.
    pub fn browser_lines(&self) -> (out: Vec<Vec<Piece>>)
        requires
            self.valid(),
        ensures
            lines_view(out@) == browser_rows(*self),
    {
        let mut out = no_rows();
        if self.filtered_indices.len() == 0 {
            push_row(
                &mut out,
                line_of(
                    piece("No datasets match the current search".to_owned(), Tone::Plain, false),
                ),
            );
            assert(lines_view(out@) =~= browser_rows(*self));
            return out;
        }
        let ghost all = browser_rows(*self);
        assert(lines_view(out@) =~= all.take(0));
        for k in 0..self.filtered_indices.len()
            invariant
                self.valid(),
                all == self.filtered_indices@.map_values(|i: usize| dataset_row(*self, i as int)),
                lines_view(out@) == all.take(k as int),
        {
            let i: usize = self.filtered_indices[k];
            push_row(&mut out, self.dataset_line(i));
            assert(lines_view(out@) =~= all.take(k + 1));
        }
        assert(all.take(all.len() as int) =~= all);
        out
    }

    /// The pieces of the title that shows the categories, the selected one first and between stars.
    pub open spec fn carousel(labels: Seq<Seq<char>>) -> Seq<PieceView>
        decreases labels.len(),
    {
        if labels.len() == 0 {
            seq![]
        } else if labels.len() == 1 {
            seq![strong("*"@ + labels[0] + "*"@, Tone::Cyan)]
        } else {
            RemoteListTui::carousel(labels.drop_last()).push(toned(" | "@, Tone::Dim)).push(
                toned(labels.last(), Tone::Dim),
            )
        }
    }

    /// The pieces of the title that shows the categories.
    pub fn category_carousel_title(&self) -> (out: Vec<Piece>)
        requires
            self.valid(),
        ensures
            exists|labels: Seq<Seq<char>>|
                {
                    &&& line_view(out@) == #[trigger] RemoteListTui::carousel(labels)
                    &&& labels.len() == self.categories@.len()
                    &&& forall|i: int|
                        0 <= i < labels.len() ==> #[trigger] labels[i] == lower(
                            self.categories@[(self.selected_category + i) % (
                            labels.len() as int)]@.label(),
                        )
                },
    {
        let labels = self.category_display_labels();
        let ghost all = texts(labels@);
        let mut out = empty_line();
        assert(line_view(out@) =~= RemoteListTui::carousel(all.take(0)));
        for i in 0..labels.len()
            invariant
                all == texts(labels@),
                line_view(out@) == RemoteListTui::carousel(all.take(i as int)),
        {
            let ghost before = line_view(out@);
            assert(all.take(i + 1).drop_last() =~= all.take(i as int));
            assert(all.take(i + 1).last() == labels@[i as int]@);
            if i == 0 {
                let text = concat3("*", labels[i].as_str(), "*");
                push_piece(&mut out, piece(text, Tone::Cyan, true));
                assert(line_view(out@) =~= RemoteListTui::carousel(all.take(1)));
            } else {
                push_piece(&mut out, piece(" | ".to_owned(), Tone::Dim, false));
                push_piece(&mut out, piece(labels[i].clone(), Tone::Dim, false));
            }
        }
        assert(all.take(all.len() as int) =~= all);
        out
    }
}

// ---------------------------------------------------------------------------
// The account
// ---------------------------------------------------------------------------

/// A row of the account page.
pub open spec fn account_row(label: Seq<char>, value: Seq<char>) -> Seq<PieceView> {
    seq![toned(padded_right(label, 7), Tone::Dim), raw(value)]
}

/// A row of the account page.
fn account_line(label: &str, value: &str) -> (out: Vec<Piece>)
    ensures
        line_view(out@) == account_row(label@, value@),
{
    let mut out = empty_line();
    push_piece(&mut out, piece(pad_right(label, 7), Tone::Dim, false));
    push_piece(&mut out, piece(value.to_owned(), Tone::Plain, false));
    assert(line_view(out@) =~= account_row(label@, value@));
    out
}

/// A text, or two dashes.
pub open spec fn or_dashes(value: Option<String>) -> Seq<char> {
    match value {
        Some(text) => text@,
        None => "--"@,
    }
}

/// A text, or two dashes.
fn text_or_dashes(value: &Option<String>) -> (out: String)
    ensures
        out@ == or_dashes(*value),
{
    match value {
        Some(text) => text.clone(),
        None => "--".to_owned(),
    }
}

/// The rows for who is signed in.
pub open spec fn identity_rows(identity: AccountIdentity) -> Seq<Seq<PieceView>> {
    seq![
        account_row("name"@, or_dashes(identity.display_name)),
        account_row("email"@, or_dashes(identity.email)),
        account_row("plan"@, or_dashes(identity.plan)),
    ] + (match identity.wallet_address {
        Some(wallet) => seq![account_row("wallet"@, wallet@)],
        None => seq![],
    }) + (match identity.avatar_url {
        Some(avatar) => seq![account_row("avatar"@, avatar@)],
        None => seq![],
    })
}

/// Puts the rows for who is signed in at the end.
fn append_identity_rows(lines: &mut Vec<Vec<Piece>>, identity: &AccountIdentity)
    ensures
        lines_view(final(lines)@) == lines_view(old(lines)@) + identity_rows(*identity),
{
    let ghost before = lines_view(lines@);
    let name = text_or_dashes(&identity.display_name);
    let email = text_or_dashes(&identity.email);
    let plan = text_or_dashes(&identity.plan);
    push_row(lines, account_line("name", name.as_str()));
    push_row(lines, account_line("email", email.as_str()));
    push_row(lines, account_line("plan", plan.as_str()));
    if let Some(wallet) = &identity.wallet_address {
        push_row(lines, account_line("wallet", wallet.as_str()));
    }
    if let Some(avatar) = &identity.avatar_url {
        push_row(lines, account_line("avatar", avatar.as_str()));
    }
    assert(lines_view(lines@) =~= before + identity_rows(*identity));
}

/// The rows for a login that waits for the user.
pub open spec fn login_rows(login: AccountLoginSession) -> Seq<Seq<PieceView>> {
    seq![
        account_row("code"@, login.user_code@),
        account_row(
            "expires"@,
            spaced_stamp_text(login.expires_at.secs as int, login.expires_at.nanos as int),
        ),
        account_row("browser"@, login.login_url@),
    ]
}

/// Puts the rows for a login that waits for the user at the end.
fn append_active_login_rows(lines: &mut Vec<Vec<Piece>>, login: &AccountLoginSession)
    requires
        login.expires_at.valid(),
    ensures
        lines_view(final(lines)@) == lines_view(old(lines)@) + login_rows(*login),
{
    let ghost before = lines_view(lines@);
    let expires = login.expires_at.spaced_stamp();
    push_row(lines, account_line("code", login.user_code.as_str()));
    push_row(lines, account_line("expires", expires.as_str()));
    push_row(lines, account_line("browser", login.login_url.as_str()));
    assert(lines_view(lines@) =~= before + login_rows(*login));
}

/// The root as it is shown: with `~` for the user's home, where it lies there.
pub open spec fn shown_root(root: Seq<char>, home: Option<Seq<char>>) -> Seq<char> {
    if home is Some && is_under(root, home->0) {
        let relative = relative_text(root, home->0);
        if relative.len() == 0 {
            "~"@
        } else {
            "~/"@ + relative
        }
    } else {
        root
    }
}

/// The root as it is shown.
pub fn format_account_root(root: &str, home: &Option<String>) -> (out: String)
    ensures
        out@ == shown_root(root@, opt_text(*home)),
{
    if let Some(home) = home {
        if let Some(relative) = relative_text_of(root, home.as_str()) {
            if relative.as_str().unicode_len() == 0 {
                return "~".to_owned();
            }
            return concat2("~/", relative.as_str());
        }
    }
    root.to_owned()
}

/// The words under the title of the account page.
pub open spec fn account_intro(account: AccountView) -> Seq<char> {
    if account.api_key_present {
        ""@
    } else if account.active_login is Some {
        "Finish login in your browser. Polaris will save the returned API key automatically."@
    } else {
        "Press . again to sign in in your browser and add an API key."@
    }
}

/// The line between the parts of the account page.
pub open spec fn account_divider() -> Seq<char> {
    repeated('─', 68)
}

/// The lines of the account page.
pub open spec fn account_rows(account: AccountView, home: Option<Seq<char>>) -> Seq<Seq<PieceView>> {
    seq![
        seq![raw(""@)],
        seq![strong("Polaris account"@, Tone::Cyan)],
        seq![raw(account_intro(account))],
        seq![raw(""@)],
    ] + (match account.identity {
        Some(identity) => identity_rows(identity).push(seq![raw(""@)]),
        None => seq![],
    }) + seq![
        seq![toned(account_divider(), Tone::Dim)],
        account_row("base"@, account.base_url@),
        account_row("root"@, shown_root(account.root@, home)),
    ] + (match account.active_login {
        Some(login) => seq![seq![raw(""@)]] + login_rows(login),
        None => seq![],
    })
}

/// The lines of the account page.
pub fn account_page(account: &AccountView, home: &Option<String>) -> (out: Vec<Vec<Piece>>)
    requires
        account.active_login matches Some(login) ==> login.expires_at.valid(),
    ensures
        lines_view(out@) == account_rows(*account, opt_text(*home)),
{
    let intro = if account.api_key_present {
        ""
    } else if account.active_login.is_some() {
        "Finish login in your browser. Polaris will save the returned API key automatically."
    } else {
        "Press . again to sign in in your browser and add an API key."
    };
    let mut out = no_rows();
    push_row(&mut out, line_of(piece("".to_owned(), Tone::Plain, false)));
    push_row(&mut out, line_of(piece("Polaris account".to_owned(), Tone::Cyan, true)));
    push_row(&mut out, line_of(piece(intro.to_owned(), Tone::Plain, false)));
    push_row(&mut out, line_of(piece("".to_owned(), Tone::Plain, false)));
    let ghost head = lines_view(out@);
    let ghost mut middle: Seq<Seq<PieceView>> = seq![];
    if let Some(identity) = &account.identity {
        append_identity_rows(&mut out, identity);
        push_row(&mut out, line_of(piece("".to_owned(), Tone::Plain, false)));
        proof {
            middle = identity_rows(*identity).push(seq![raw(""@)]);
        }
    }
    assert(lines_view(out@) =~= head + middle);
    push_row(&mut out, line_of(piece(repeat_char('─', 68), Tone::Dim, false)));
    push_row(&mut out, account_line("base", account.base_url.as_str()));
    let root = format_account_root(account.root.as_str(), home);
    push_row(&mut out, account_line("root", root.as_str()));
    let ghost body = lines_view(out@);
    if let Some(login) = &account.active_login {
        push_row(&mut out, line_of(piece("".to_owned(), Tone::Plain, false)));
        append_active_login_rows(&mut out, login);
        assert(lines_view(out@) =~= body + (seq![seq![raw(""@)]] + login_rows(*login)));
    } else {
        assert(lines_view(out@) =~= body + Seq::empty());
    }
    assert(lines_view(out@) =~= account_rows(*account, opt_text(*home)));
    out
}

/// Whether there is an API key, in words.
pub fn account_status(account: &AccountView) -> (out: &'static str)
    ensures
        out@ == (if account.api_key_present {
            "configured"@
        } else {
            "not configured"@
        }),
{
    if account.api_key_present {
        "configured"
    } else {
        "not configured"
    }
}

/// What the key for the account does on the account page, in words.
pub fn account_shortcut(account: &AccountView) -> (out: &'static str)
    ensures
        out@ == (if account.api_key_present {
            "open account"@
        } else if account.active_login is Some {
            "reopen browser"@
        } else {
            "sign in"@
        }),
{
    if account.api_key_present {
        "open account"
    } else if account.active_login.is_some() {
        "reopen browser"
    } else {
        "sign in"
    }
}

// ---------------------------------------------------------------------------
// The days
// ---------------------------------------------------------------------------

/// What the days are shown with.
pub struct GridContext {
    pub dataset: Seq<char>,
    pub selected: Option<Date>,
    pub sync: Option<ActiveDaySync>,
    pub tick: usize,
}

/// One of four strokes that turn.
pub open spec fn spinner(tick: usize) -> Seq<char> {
    if tick % 4 == 0 {
        "|"@
    } else if tick % 4 == 1 {
        "/"@
    } else if tick % 4 == 2 {
        "-"@
    } else {
        "\\"@
    }
}

/// The sign for how much of a day is stored.
pub open spec fn day_sign(day: DayCoverage, context: GridContext) -> Seq<char> {
    if syncs_day(context.sync, context.dataset, day.date) {
        spinner(context.tick)
    } else {
        match day@.state() {
            DayState::Full => "OK"@,
            DayState::Partial => "~"@ + (if day.missing_keys@.len() > 99 {
                "99+"@
            } else {
                decimal(day.missing_keys@.len())
            }),
            DayState::Empty => "--"@,
            DayState::NoRemote => ".."@,
        }
    }
}

/// The colour for how much of a day is stored.
pub open spec fn day_tone(state: DayState) -> Tone {
    match state {
        DayState::Full => Tone::Green,
        DayState::Partial => Tone::Yellow,
        DayState::Empty => Tone::Red,
        DayState::NoRemote => Tone::Dim,
    }
}

/// The cell of a day: the day of the month and the sign, eight characters wide.
pub open spec fn day_cell(day: DayCoverage, context: GridContext) -> PieceView {
    let selected = context.selected == Some(day.date);
    PieceView {
        text: padded_left(decimal(ymd_of(day.date.days as int).2 as nat), 2) + " "@ + padded_right(
            day_sign(day, context),
            4,
        ) + " "@,
        tone: day_tone(day@.state()),
        bold: selected,
        reversed: selected,
    }
}

/// The cell of a day that is not shown.
pub open spec fn blank_cell() -> PieceView {
    toned("        "@, Tone::Dim)
}

/// The first position, from `i` up to `end`, of the day with number `n`.
pub open spec fn day_numbered(days: Seq<DayCoverage>, i: int, end: int, n: int) -> Option<int>
    decreases end - i,
{
    if i >= end {
        None
    } else if days[i].date.days == n {
        Some(i)
    } else {
        day_numbered(days, i + 1, end, n)
    }
}

/// The cell of the day with number `n`, in a month whose days stand from `start` up to `end`.
pub open spec fn cell_at(
    days: Seq<DayCoverage>,
    start: int,
    end: int,
    n: int,
    context: GridContext,
) -> PieceView {
    match day_numbered(days, start, end, n) {
        Some(i) => day_cell(days[i], context),
        None => blank_cell(),
    }
}

/// The week that begins on the day with number `n`.
pub open spec fn week_row(
    days: Seq<DayCoverage>,
    start: int,
    end: int,
    n: int,
    context: GridContext,
) -> Seq<PieceView> {
    Seq::new(7, |k: int| cell_at(days, start, end, n + k, context))
}

/// The weeks from that which begins on the day with number `n` to that which holds the day `last`.
pub open spec fn week_rows(
    days: Seq<DayCoverage>,
    start: int,
    end: int,
    n: int,
    last: int,
    context: GridContext,
) -> Seq<Seq<PieceView>>
    decreases last - n + 7,
{
    if n > last {
        seq![]
    } else {
        seq![week_row(days, start, end, n, context)] + week_rows(
            days,
            start,
            end,
            n + 7,
            last,
            context,
        )
    }
}

/// Whether two days lie in one month.
pub open spec fn same_month(a: Date, b: Date) -> bool {
    ymd_of(a.days as int).0 == ymd_of(b.days as int).0 && ymd_of(a.days as int).1 == ymd_of(
        b.days as int,
    ).1
}

/// Where the days end, from `i` on, that lie in one month with the day at `start`.
pub open spec fn month_end(days: Seq<DayCoverage>, start: int, i: int) -> int
    decreases days.len() - i,
{
    if i >= days.len() || !same_month(days[i].date, days[start].date) {
        i
    } else {
        month_end(days, start, i + 1)
    }
}

/// The names of the days of the week.
pub open spec fn weekday_header() -> Seq<PieceView> {
    seq![
        raw(" Mon    "@),
        raw(" Tue    "@),
        raw(" Wed    "@),
        raw(" Thu    "@),
        raw(" Fri    "@),
        raw(" Sat    "@),
        raw(" Sun"@),
    ]
}

/// The lines of a month whose days stand from `start` up to `end`: its name, the names of the days of
/// the week, and its weeks from Monday to Sunday.
pub open spec fn month_rows(days: Seq<DayCoverage>, start: int, end: int, context: GridContext) -> Seq<
    Seq<PieceView>,
> {
    let first = days[start].date.days as int;
    let last = days[end - 1].date.days as int;
    seq![seq![strong(month_text(first), Tone::Plain)], weekday_header()] + week_rows(
        days,
        start,
        end,
        first - days_from_monday(first),
        last + (6 - days_from_monday(last)),
        context,
    )
}

/// The lines of the months of the days from `start` on, with a blank line between months.
pub open spec fn grid_rows(days: Seq<DayCoverage>, start: int, context: GridContext) -> Seq<
    Seq<PieceView>,
>
    decreases days.len() - start,
{
    if start < 0 || start >= days.len() {
        seq![]
    } else {
        let end = month_end(days, start, start + 1);
        if end <= start || end > days.len() {
            seq![]
        } else {
            (if start > 0 {
                seq![seq![raw(""@)]]
            } else {
                seq![]
            }) + month_rows(days, start, end, context) + grid_rows(days, end, context)
        }
    }
}

proof fn lemma_month_end(days: Seq<DayCoverage>, start: int, i: int)
    requires
        0 <= start < i <= days.len(),
    ensures
        start < month_end(days, start, i) <= days.len(),
    decreases days.len() - i,
{
    if i < days.len() && same_month(days[i].date, days[start].date) {
        lemma_month_end(days, start, i + 1);
    }
}

/// The cell of a day.
fn render_day_cell(
    day: &DayCoverage,
    selected: Option<Date>,
    active_sync: &Option<ActiveDaySync>,
    dataset: &str,
    spinner_tick: usize,
) -> (out: Piece)
    requires
        day.date.valid(),
    ensures
        out@ == day_cell(
            *day,
            GridContext { dataset: dataset@, selected, sync: *active_sync, tick: spinner_tick },
        ),
{
    let syncing = match active_sync {
        Some(sync) => same_text(sync.dataset.as_str(), dataset) && sync.date == day.date,
        None => false,
    };
    let state = day.state();
    let sign = if syncing {
        spinner_frame(spinner_tick).to_owned()
    } else {
        match state {
            DayState::Full => "OK".to_owned(),
            DayState::Partial => {
                let count = compact_count(day.missing_keys.len());
                concat2("~", count.as_str())
            },
            DayState::Empty => "--".to_owned(),
            DayState::NoRemote => "..".to_owned(),
        }
    };
    let tone = match state {
        DayState::Full => Tone::Green,
        DayState::Partial => Tone::Yellow,
        DayState::Empty => Tone::Red,
        DayState::NoRemote => Tone::Dim,
    };
    let (year, month, number) = day.date.ymd();
    let number = decimal_of(number as u64);
    let number = pad_left(number.as_str(), 2);
    let sign = pad_right(sign.as_str(), 4);
    let marked = match selected {
        Some(date) => date == day.date,
        None => false,
    };
    Piece {
        text: concat4(number.as_str(), " ", sign.as_str(), " "),
        tone,
        bold: marked,
        reversed: marked,
    }
}

/// The names of the days of the week.
fn weekday_header_line() -> (out: Vec<Piece>)
    ensures
        line_view(out@) == weekday_header(),
{
    let mut out = empty_line();
    push_piece(&mut out, piece(" Mon    ".to_owned(), Tone::Plain, false));
    push_piece(&mut out, piece(" Tue    ".to_owned(), Tone::Plain, false));
    push_piece(&mut out, piece(" Wed    ".to_owned(), Tone::Plain, false));
    push_piece(&mut out, piece(" Thu    ".to_owned(), Tone::Plain, false));
    push_piece(&mut out, piece(" Fri    ".to_owned(), Tone::Plain, false));
    push_piece(&mut out, piece(" Sat    ".to_owned(), Tone::Plain, false));
    push_piece(&mut out, piece(" Sun".to_owned(), Tone::Plain, false));
    assert(line_view(out@) =~= weekday_header());
    out
}

impl DatasetView {
    /// What the days are shown with.
    pub open spec fn context(self, sync: Option<ActiveDaySync>, tick: usize) -> GridContext {
        GridContext {
            dataset: self.dataset.dataset@,
            selected: if self.has_day() {
                Some(self.days@[self.selected_day as int].date)
            } else {
                None
            },
            sync,
            tick,
        }
    }

    /// The first position, from `start` up to `end`, of the day with number `n`.
    fn find_day_numbered(&self, start: usize, end: usize, n: i32) -> (out: Option<usize>)
        requires
            start <= end <= self.days@.len(),
        ensures
            day_numbered(self.days@, start as int, end as int, n as int) == (match out {
                Some(i) => Some(i as int),
                None => None,
            }),
            out matches Some(i) ==> start <= i < end,
    {
        let mut i: usize = start;
        while i < end
            invariant
                start <= i <= end <= self.days@.len(),
                day_numbered(self.days@, start as int, end as int, n as int) == day_numbered(
                    self.days@,
                    i as int,
                    end as int,
                    n as int,
                ),
            decreases end - i,
        {
            if self.days[i].date.days == n {
                return Some(i);
            }
            i += 1;
        }
        None
    }

    /// The week that begins on the day with number `n`.
    fn week_line(
        &self,
        start: usize,
        end: usize,
        n: i32,
        active_sync: &Option<ActiveDaySync>,
        spinner_tick: usize,
    ) -> (out: Vec<Piece>)
        requires
            self.valid(),
            start <= end <= self.days@.len(),
            -200_000_000 <= n <= 200_000_000,
        ensures
            line_view(out@) == week_row(
                self.days@,
                start as int,
                end as int,
                n as int,
                self.context(*active_sync, spinner_tick),
            ),
    {
        let selected = if self.selected_day < self.days.len() {
            Some(self.days[self.selected_day].date)
        } else {
            None
        };
        let ghost context = self.context(*active_sync, spinner_tick);
        let ghost all = week_row(self.days@, start as int, end as int, n as int, context);
        let mut out = empty_line();
        assert(line_view(out@) =~= all.take(0));
        for k in 0..7i32
            invariant
                self.valid(),
                start <= end <= self.days@.len(),
                -200_000_000 <= n <= 200_000_000,
                selected == context.selected,
                context == self.context(*active_sync, spinner_tick),
                all == week_row(self.days@, start as int, end as int, n as int, context),
                line_view(out@) == all.take(k as int),
        {
            let ghost before = line_view(out@);
            match self.find_day_numbered(start, end, n + k) {
                Some(i) => {
                    assert(self.days@[i as int].date.valid());
                    push_piece(
                        &mut out,
                        render_day_cell(
                            &self.days[i],
                            selected,
                            active_sync,
                            self.dataset.dataset.as_str(),
                            spinner_tick,
                        ),
                    );
                },
                None => {
                    push_piece(&mut out, piece("        ".to_owned(), Tone::Dim, false));
                },
            }
            assert(all[k as int] == cell_at(
                self.days@,
                start as int,
                end as int,
                n + k,
                context,
            ));
            assert(line_view(out@) =~= before.push(all[k as int]));
            assert(line_view(out@) =~= all.take(k + 1));
        }
        assert(all.take(7) =~= all);
        out
    }

    /// Where the days end that lie in one month with the day at `start`.
    fn end_of_month(&self, start: usize) -> (out: usize)
        requires
            self.valid(),
            start < self.days@.len(),
        ensures
            out == month_end(self.days@, start as int, start + 1),
            start < out <= self.days@.len(),
    {
        let count: usize = self.days.len();
        let first = self.days[start].date.ymd();
        let mut end: usize = start + 1;
        while end < count
            invariant
                self.valid(),
                count == self.days@.len(),
                start < end <= count,
                ymd_of(self.days@[start as int].date.days as int) == (
                    first.0 as int,
                    first.1 as int,
                    first.2 as int,
                ),
                month_end(self.days@, start as int, start + 1) == month_end(
                    self.days@,
                    start as int,
                    end as int,
                ),
            decreases self.days@.len() - end,
        {
            assert(self.days@[end as int].date.valid());
            let (year, month, number) = self.days[end].date.ymd();
            if year != first.0 || month != first.1 {
                return end;
            }
            end += 1;
        }
        end
    }

    /// The lines of the days, month by month.
    pub fn render_day_grid(&self, active_sync: &Option<ActiveDaySync>, spinner_tick: usize) -> (out:
        Vec<Vec<Piece>>)
        requires
            self.valid(),
        ensures
            lines_view(out@) == grid_rows(self.days@, 0, self.context(*active_sync, spinner_tick)),
    {
        let ghost context = self.context(*active_sync, spinner_tick);
        let ghost goal = grid_rows(self.days@, 0, context);
        let mut out = no_rows();
        let mut start: usize = 0;
        assert(lines_view(out@) + goal =~= goal);
        while start < self.days.len()
            invariant
                self.valid(),
                start <= self.days@.len(),
                context == self.context(*active_sync, spinner_tick),
                goal == lines_view(out@) + grid_rows(self.days@, start as int, context),
            decreases self.days@.len() - start,
        {
            let ghost before = lines_view(out@);
            let end: usize = self.end_of_month(start);
            if start > 0 {
                push_row(&mut out, line_of(piece("".to_owned(), Tone::Plain, false)));
            }
            assert(self.days@[start as int].date.valid());
            assert(self.days@[end - 1].date.valid());
            let first = self.days[start].date;
            let last = self.days[end - 1].date;
            push_row(&mut out, line_of(piece(first.month_label(), Tone::Plain, true)));
            push_row(&mut out, weekday_header_line());
            let ghost titled = lines_view(out@);
            let from: i32 = first.days - first.days_from_monday() as i32;
            let to: i32 = last.days + (6 - last.days_from_monday() as i32);
            let ghost weeks = week_rows(
                self.days@,
                start as int,
                end as int,
                from as int,
                to as int,
                context,
            );
            let mut cursor: i32 = from;
            assert(titled + weeks =~= lines_view(out@) + week_rows(
                self.days@,
                start as int,
                end as int,
                cursor as int,
                to as int,
                context,
            ));
            while cursor <= to
                invariant
                    self.valid(),
                    start <= end <= self.days@.len(),
                    context == self.context(*active_sync, spinner_tick),
                    from <= cursor,
                    -100_000_000 <= from,
                    to <= 100_000_000,
                    cursor <= to + 7 || cursor == from,
                    cursor <= 100_000_010,
                    titled + weeks == lines_view(out@) + week_rows(
                        self.days@,
                        start as int,
                        end as int,
                        cursor as int,
                        to as int,
                        context,
                    ),
                decreases to - cursor + 7,
            {
                let ghost seen = lines_view(out@);
                let row = self.week_line(start, end, cursor, active_sync, spinner_tick);
                let ghost view = line_view(row@);
                push_row(&mut out, row);
                assert(lines_view(out@) + week_rows(
                    self.days@,
                    start as int,
                    end as int,
                    cursor + 7,
                    to as int,
                    context,
                ) =~= seen + (seq![view] + week_rows(
                    self.days@,
                    start as int,
                    end as int,
                    cursor + 7,
                    to as int,
                    context,
                )));
                cursor += 7;
            }
            proof {
                assert(lines_view(out@) =~= titled + weeks);
                let blank: Seq<Seq<PieceView>> = if start > 0 {
                    seq![seq![raw(""@)]]
                } else {
                    seq![]
                };
                let rest = grid_rows(self.days@, end as int, context);
                let month = month_rows(self.days@, start as int, end as int, context);
                assert(lines_view(out@) =~= before + blank + month);
                assert(before + (blank + month + rest) =~= lines_view(out@) + rest);
            }
            start = end;
        }
        assert(lines_view(out@) + grid_rows(self.days@, start as int, context) =~= lines_view(
            out@,
        ));
        out
    }

    /// The title of the days: access, a star where the dataset is bookmarked, the name.
    pub fn grid_title(&self, is_bookmarked: bool) -> (out: Vec<Piece>)
        ensures
            line_view(out@) == seq![
                toned(
                    "["@ + self.dataset@.status_label() + "]"@,
                    access_tone(self.dataset.access),
                ),
            ] + (if is_bookmarked {
                seq![toned(" *"@, Tone::Yellow)]
            } else {
                seq![]
            }) + seq![raw(" "@), strong(self.dataset.dataset@, Tone::Plain)],
    {
        let mut out = empty_line();
        push_piece(
            &mut out,
            piece(self.dataset.access_badge(), access_color(self.dataset.access), false),
        );
        let ghost head = seq![
            toned("["@ + self.dataset@.status_label() + "]"@, access_tone(self.dataset.access)),
        ];
        assert(line_view(out@) =~= head);
        let ghost mut star: Seq<PieceView> = seq![];
        if is_bookmarked {
            push_piece(&mut out, piece(" *".to_owned(), Tone::Yellow, false));
            proof {
                star = seq![toned(" *"@, Tone::Yellow)];
            }
        }
        assert(line_view(out@) =~= head + star);
        push_piece(&mut out, piece(" ".to_owned(), Tone::Plain, false));
        push_piece(&mut out, piece(self.dataset.dataset.clone(), Tone::Plain, true));
        assert(line_view(out@) =~= head + star + seq![
            raw(" "@),
            strong(self.dataset.dataset@, Tone::Plain),
        ]);
        out
    }
}

// ---------------------------------------------------------------------------
// The selected day
// ---------------------------------------------------------------------------

/// The directory of the snapshots of a day, as it is shown: that of the first key, those stored first,
/// and where there is none with a path, its form.
pub open spec fn location_of(view: DatasetView, day: DayCoverage) -> Seq<char> {
    let key = if day.local_keys@.len() > 0 {
        Some(day.local_keys@[0]@)
    } else if day.remote_keys@.len() > 0 {
        Some(day.remote_keys@[0]@)
    } else {
        None
    };
    let nowhere: Seq<char> = seq![];
    if key is Some && data_path(nowhere, key->0) is Ok {
        match parent(data_path(nowhere, key->0)->Ok_0) {
            Some(dir) => forward_slashes(dir),
            None => "data"@,
        }
    } else {
        "data/<source>/"@ + view.dataset.source@ + "/"@ + view.dataset.market@ + "/"@ + date_text(
            day.date.days as int,
        )
    }
}

/// Where the snapshots of a day are stored, or will be.
pub open spec fn location_text(view: DatasetView, day: DayCoverage) -> Seq<char> {
    (if day.local_keys@.len() == 0 {
        "will store under: "@
    } else {
        "stored under: "@
    }) + location_of(view, day)
}

/// The directory of a snapshot, where its key has a path.
fn directory_of_key(key: &str) -> (out: Option<String>)
    ensures
        ({
            let nowhere: Seq<char> = seq![];
            match data_path(nowhere, key@) {
                Ok(path) => opt_text(out) == Some(
                    match parent(path) {
                        Some(dir) => forward_slashes(dir),
                        None => "data"@,
                    },
                ),
                Err(_) => out is None,
            }
        }),
{
    let root = String::new();
    assert(root@ =~= seq![]);
    let layout = Layout::new(root);
    match layout.data_path_for_key(key) {
        Ok(path) => match parent_of(path.as_str()) {
            Some(dir) => Some(to_forward_slashes(dir.as_str())),
            None => Some("data".to_owned()),
        },
        Err(_) => None,
    }
}

/// Where the snapshots of a day are stored, or will be.
pub fn format_snapshot_location(view: &DatasetView, day: &DayCoverage) -> (out: String)
    requires
        day.date.valid(),
    ensures
        out@ == location_text(*view, *day),
{
    let known = if day.local_keys.len() > 0 {
        directory_of_key(day.local_keys[0].as_str())
    } else if day.remote_keys.len() > 0 {
        directory_of_key(day.remote_keys[0].as_str())
    } else {
        None
    };
    let path = match known {
        Some(path) => path,
        None => {
            let date = day.date.text();
            let mut path = concat4(
                "data/<source>/",
                view.dataset.source.as_str(),
                "/",
                view.dataset.market.as_str(),
            );
            path.append("/");
            path.append(date.as_str());
            path
        },
    };
    if day.local_keys.len() == 0 {
        concat2("will store under: ", path.as_str())
    } else {
        concat2("stored under: ", path.as_str())
    }
}

/// The lines for the selected day: its state, how much of it is stored, where, and the status.
pub open spec fn summary_rows(
    view: DatasetView,
    sync: Option<ActiveDaySync>,
    status: Option<Seq<char>>,
) -> Seq<Seq<PieceView>> {
    let day = view.days@[view.selected_day as int];
    let syncing = syncs_day(sync, view.dataset.dataset@, day.date);
    let (remote, local, missing) = if syncing {
        (
            sync->0.remote_total as int,
            synced_total(sync->0),
            sync->0.remote_total - synced_total(sync->0),
        )
    } else {
        (
            day.remote_keys@.len() as int,
            day.local_keys@.len() as int,
            day.missing_keys@.len() as int,
        )
    };
    let words = if syncing { "syncing"@ } else { state_words(day@.state()) };
    let tone = if syncing { Tone::Cyan } else { day_tone(day@.state()) };
    seq![
        seq![
            strong(date_text(day.date.days as int), Tone::Plain),
            raw("  "@),
            strong(upper(words), tone),
        ],
        seq![
            raw(
                "coverage: "@ + completion_bar(local, remote, 18) + "   missing: "@ + decimal(
                    missing as nat,
                ),
            ),
        ],
        seq![raw(location_text(view, day))],
    ] + (match status {
        Some(text) => seq![seq![toned("status: "@, Tone::Dim), raw(text)]],
        None => seq![],
    })
}

impl DatasetView {
    /// The lines for the selected day.
    pub fn selected_day_summary(&self, active_sync: &Option<ActiveDaySync>, status: &Option<String>) -> (out:
        Vec<Vec<Piece>>)
        requires
            self.valid(),
            self.has_day(),
            active_sync matches Some(sync) ==> sync.local_present + sync.downloaded <= usize::MAX,
        ensures
            lines_view(out@) == summary_rows(*self, *active_sync, opt_text(*status)),
    {
        let day = self.selected_coverage();
        assert(self.days@[self.selected_day as int].date.valid());
        let (remote_total, local_total, missing_total, state) = sync_adjusted_day_totals(
            self,
            day,
            active_sync,
        );
        let syncing = match active_sync {
            Some(sync) => same_text(sync.dataset.as_str(), self.dataset.dataset.as_str())
                && sync.date == day.date,
            None => false,
        };
        let tone = if syncing {
            Tone::Cyan
        } else {
            match day.state() {
                DayState::Full => Tone::Green,
                DayState::Partial => Tone::Yellow,
                DayState::Empty => Tone::Red,
                DayState::NoRemote => Tone::Dim,
            }
        };
        let bar = render_completion_bar(local_total, remote_total, 18);
        let missing = decimal_of(missing_total as u64);
        let coverage = concat4("coverage: ", bar.as_str(), "   missing: ", missing.as_str());
        let mut first = empty_line();
        push_piece(&mut first, piece(day.date.text(), Tone::Plain, true));
        push_piece(&mut first, piece("  ".to_owned(), Tone::Plain, false));
        push_piece(&mut first, piece(uppered(state), tone, true));
        let ghost head = seq![
            strong(date_text(day.date.days as int), Tone::Plain),
            raw("  "@),
            strong(upper(state@), tone),
        ];
        assert(line_view(first@) =~= head);
        let mut out = no_rows();
        push_row(&mut out, first);
        push_row(&mut out, line_of(piece(coverage, Tone::Plain, false)));
        push_row(
            &mut out,
            line_of(piece(format_snapshot_location(self, day), Tone::Plain, false)),
        );
        let ghost body = seq![
            head,
            seq![raw(coverage@)],
            seq![raw(location_text(*self, *day))],
        ];
        assert(lines_view(out@) =~= body);
        match status {
            Some(text) => {
                let mut line = empty_line();
                push_piece(&mut line, piece("status: ".to_owned(), Tone::Dim, false));
                push_piece(&mut line, piece(text.clone(), Tone::Plain, false));
                let ghost shown = line_view(line@);
                push_row(&mut out, line);
                assert(shown =~= seq![toned("status: "@, Tone::Dim), raw(text@)]);
                assert(lines_view(out@) =~= body + seq![shown]);
            },
            None => {
                assert(lines_view(out@) =~= body + Seq::empty());
            },
        }
        assert(lines_view(out@) =~= summary_rows(*self, *active_sync, opt_text(*status)));
        out
    }
}

// ---------------------------------------------------------------------------
// The question for an API key
// ---------------------------------------------------------------------------

/// The key that is typed, as it is shown: a star for each character.
pub open spec fn masked(input: Seq<char>) -> Seq<char> {
    if input.len() == 0 {
        "<empty>"@
    } else {
        repeated('*', input.len())
    }
}

/// The lines of the question for an API key.
pub open spec fn prompt_rows(prompt: ApiKeyPromptState) -> Seq<Seq<PieceView>> {
    seq![
        seq![strong(prompt.access_message@, Tone::Plain)],
        seq![raw("Go to polaris.supply to grab your API key."@)],
        seq![raw(""@)],
        seq![raw("API key: "@ + masked(prompt.input@))],
        seq![raw("Enter saves the key and continues syncing. Esc cancels."@)],
    ] + (match prompt.error_message {
        Some(error) => seq![seq![raw(""@)], seq![toned(error@, Tone::Red)]],
        None => seq![],
    })
}

impl ApiKeyPromptState {
    /// The lines of the question for an API key. What was typed is not shown.
    pub fn prompt_lines(&self) -> (out: Vec<Vec<Piece>>)
        ensures
            lines_view(out@) == prompt_rows(*self),
    {
        let count: usize = self.input.as_str().unicode_len();
        let shown = if count == 0 {
            "<empty>".to_owned()
        } else {
            repeat_char('*', count)
        };
        let mut out = no_rows();
        push_row(&mut out, line_of(piece(self.access_message.clone(), Tone::Plain, true)));
        push_row(
            &mut out,
            line_of(
                piece("Go to polaris.supply to grab your API key.".to_owned(), Tone::Plain, false),
            ),
        );
        push_row(&mut out, line_of(piece("".to_owned(), Tone::Plain, false)));
        push_row(
            &mut out,
            line_of(piece(concat2("API key: ", shown.as_str()), Tone::Plain, false)),
        );
        push_row(
            &mut out,
            line_of(
                piece(
                    "Enter saves the key and continues syncing. Esc cancels.".to_owned(),
                    Tone::Plain,
                    false,
                ),
            ),
        );
        let ghost body = lines_view(out@);
        match &self.error_message {
            Some(error) => {
                push_row(&mut out, line_of(piece("".to_owned(), Tone::Plain, false)));
                push_row(&mut out, line_of(piece(error.clone(), Tone::Red, false)));
                assert(lines_view(out@) =~= body + seq![
                    seq![raw(""@)],
                    seq![toned(error@, Tone::Red)],
                ]);
            },
            None => {
                assert(lines_view(out@) =~= body + Seq::empty());
            },
        }
        assert(lines_view(out@) =~= prompt_rows(*self));
        out
    }
}

/// What is shown of a key that is typed tells nothing of it but its length.
pub proof fn lemma_key_is_masked(a: ApiKeyPromptState, b: ApiKeyPromptState)
    requires
        a.input@.len() == b.input@.len(),
        a.access_message == b.access_message,
        a.error_message == b.error_message,
    ensures
        prompt_rows(a) == prompt_rows(b),
{
}

// ---------------------------------------------------------------------------
// What is to be seen
// ---------------------------------------------------------------------------

/// Each dataset of the list has a line, in the order of the list: it ends with the name of the dataset,
/// and has a star if and only if the dataset is bookmarked.
pub proof fn lemma_lines_of_the_list(app: RemoteListTui, out: Vec<Vec<Piece>>, k: int)
    requires
        call_ensures(RemoteListTui::browser_lines, (&app,), out),
        0 <= k < app.filtered_indices@.len(),
    ensures
        out@.len() == app.filtered_indices@.len(),
        ({
            let entry = app.datasets@[app.filtered_indices@[k] as int];
            let line = out@[k]@;
            &&& line.len() == 3
            &&& line[2].text@ == entry.dataset@
            &&& line[1].text@ == (if app.bookmarks@.contains(entry.dataset@) {
                "* "@
            } else {
                "  "@
            })
            &&& line[0].text@ == padded_right("["@ + entry@.status_label() + "]"@, 12) + " "@
        }),
{
    let rows = lines_view(out@);
    assert(rows.len() == out@.len());
    assert(rows[k] == line_view(out@[k]@));
    assert(rows[k] == dataset_row(app, app.filtered_indices@[k] as int));
    let line = out@[k]@;
    assert(line_view(line).len() == line.len());
    assert(line_view(line)[0] == line[0]@ && line_view(line)[1] == line[1]@ && line_view(line)[2]
        == line[2]@);
}

proof fn lemma_week_rows(
    days: Seq<DayCoverage>,
    start: int,
    end: int,
    n: int,
    last: int,
    context: GridContext,
    x: int,
) -> (row: int)
    requires
        n <= x <= last,
    ensures
        0 <= row < week_rows(days, start, end, n, last, context).len(),
        week_rows(days, start, end, n, last, context)[row].len() == 7,
        week_rows(days, start, end, n, last, context)[row][(x - n) % 7] == cell_at(
            days,
            start,
            end,
            x,
            context,
        ),
    decreases x - n,
{
    let rows = week_rows(days, start, end, n, last, context);
    assert(rows[0] == week_row(days, start, end, n, context));
    if x < n + 7 {
        assert((x - n) % 7 == x - n);
        0
    } else {
        let rest = week_rows(days, start, end, n + 7, last, context);
        let row = lemma_week_rows(days, start, end, n + 7, last, context, x);
        assert(rows[row + 1] == rest[row]);
        assert((x - n) % 7 == (x - (n + 7)) % 7);
        row + 1
    }
}

/// Whether the days follow each other without a gap.
pub open spec fn day_by_day(days: Seq<DayCoverage>) -> bool {
    forall|i: int, j: int|
        0 <= i < days.len() && 0 <= j < days.len() ==> (#[trigger] days[j]).date.days - (
        #[trigger] days[i]).date.days == j - i
}

proof fn lemma_day_numbered(days: Seq<DayCoverage>, i: int, end: int, d: int)
    requires
        day_by_day(days),
        0 <= i <= d < end <= days.len(),
    ensures
        day_numbered(days, i, end, days[d].date.days as int) == Some(d),
    decreases d - i,
{
    if i < d {
        assert(days[d].date.days - days[i].date.days == d - i);
        lemma_day_numbered(days, i + 1, end, d);
    }
}

proof fn lemma_grid_holds(days: Seq<DayCoverage>, start: int, context: GridContext, d: int) -> (row: int)
    requires
        day_by_day(days),
        0 <= start <= d < days.len(),
    ensures
        0 <= row < grid_rows(days, start, context).len(),
        grid_rows(days, start, context)[row].len() == 7,
        grid_rows(days, start, context)[row][days_from_monday(days[d].date.days as int)]
            == day_cell(days[d], context),
    decreases days.len() - start,
{
    let end = month_end(days, start, start + 1);
    lemma_month_end(days, start, start + 1);
    let gap: Seq<Seq<PieceView>> = if start > 0 {
        seq![seq![raw(""@)]]
    } else {
        seq![]
    };
    let month = month_rows(days, start, end, context);
    let rest = grid_rows(days, end, context);
    let all = grid_rows(days, start, context);
    assert(all == gap + month + rest);
    if d < end {
        let first = days[start].date.days as int;
        let last = days[end - 1].date.days as int;
        let x = days[d].date.days as int;
        let n = first - days_from_monday(first);
        let to = last + (6 - days_from_monday(last));
        assert(days[d].date.days - days[start].date.days == d - start);
        assert(days[end - 1].date.days - days[d].date.days == end - 1 - d);
        let row = lemma_week_rows(days, start, end, n, to, context, x);
        lemma_day_numbered(days, start, end, d);
        assert((x - n) % 7 == (x - 1) % 7);
        let weeks = week_rows(days, start, end, n, to, context);
        assert(month[2 + row] == weeks[row]);
        assert(all[gap.len() + 2 + row] == month[2 + row]);
        gap.len() + 2 + row
    } else {
        let row = lemma_grid_holds(days, end, context, d);
        assert(all[gap.len() + month.len() + row] == rest[row]);
        gap.len() + month.len() + row
    }
}

/// Every day is shown, in the column of its day of the week, with its number in the month and a sign
/// for how much of it is stored. The selected day is marked, and no other. The answer is the line in
/// which a day stands.
pub proof fn lemma_every_day_is_shown(
    view: DatasetView,
    sync: Option<ActiveDaySync>,
    tick: usize,
    out: Vec<Vec<Piece>>,
    d: int,
    column: u32,
    number: (i32, u32, u32),
) -> (row: int)
    requires
        call_ensures(DatasetView::render_day_grid, (&view, &sync, tick), out),
        view.valid(),
        day_by_day(view.days@),
        0 <= d < view.days@.len(),
        call_ensures(Date::days_from_monday, (&view.days@[d].date,), column),
        call_ensures(Date::ymd, (&view.days@[d].date,), number),
    ensures
        0 <= row < out@.len(),
        out@[row]@.len() == 7,
        ({
            let day = view.days@[d];
            let cell = out@[row]@[column as int];
            let under_way = sync is Some && sync->0.dataset@ == view.dataset.dataset@
                && sync->0.date == day.date;
            let sign = if day.remote_keys@.len() == 0 {
                ".."@
            } else if day.missing_keys@.len() == 0 {
                "OK"@
            } else if day.local_keys@.len() == 0 {
                "--"@
            } else if day.missing_keys@.len() <= 99 {
                "~"@ + decimal(day.missing_keys@.len())
            } else {
                "~"@ + "99+"@
            };
            &&& cell.reversed <==> d == view.selected_day
            &&& !under_way ==> cell.text@ == padded_left(decimal(number.2 as nat), 2) + " "@
                + padded_right(sign, 4) + " "@
        }),
{
    let days = view.days@;
    let context = view.context(sync, tick);
    let row = lemma_grid_holds(days, 0, context, d);
    let rows = lines_view(out@);
    assert(rows.len() == out@.len());
    assert(rows[row] == line_view(out@[row]@));
    assert(line_view(out@[row]@).len() == out@[row]@.len());
    assert(column == days_from_monday(days[d].date.days as int));
    assert(0 <= column < 7);
    assert(line_view(out@[row]@)[column as int] == out@[row]@[column as int]@);
    let s = view.selected_day as int;
    assert(days[s].date.days - days[d].date.days == s - d);
    row
}

/// The account page says what its key does: what it says is what is then done.
pub proof fn lemma_account_key_does_what_is_said(app: RemoteListTui, words: &'static str, step: AccountStep)
    requires
        call_ensures(account_shortcut, (&app.account_view,), words),
        call_ensures(RemoteListTui::account_step, (&app,), step),
        app.mode is Account,
    ensures
        words@ == "sign in"@ <==> step is StartLogin,
        words@ == "reopen browser"@ ==> app.account_view.active_login is Some && step is OpenUrl
            && step->OpenUrl_0@ == app.account_view.active_login->0.login_url@,
        words@ == "open account"@ <==> app.account_view.api_key_present,
        app.account_view.api_key_present ==> step is OpenUrl,
{
    reveal_strlit("sign in");
    reveal_strlit("reopen browser");
    reveal_strlit("open account");
    assert("sign in"@.len() == 7 && "reopen browser"@.len() == 14 && "open account"@.len() == 12);
}

/// What is typed of an API key is never shown: nothing but stars follows its name.
pub proof fn lemma_typed_key_is_not_shown(prompt: ApiKeyPromptState, out: Vec<Vec<Piece>>)
    requires
        call_ensures(ApiKeyPromptState::prompt_lines, (&prompt,), out),
        prompt.input@.len() > 0,
    ensures
        out@.len() >= 5,
        out@[3]@.len() == 1,
        out@[3]@[0].text@ == "API key: "@ + repeated('*', prompt.input@.len()),
        out@[0]@.len() == 1 && out@[0]@[0].text@ == prompt.access_message@,
{
    let rows = lines_view(out@);
    assert(rows.len() == out@.len());
    assert(rows[3] == line_view(out@[3]@) && rows[0] == line_view(out@[0]@));
    assert(line_view(out@[3]@).len() == out@[3]@.len());
    assert(line_view(out@[0]@).len() == out@[0]@.len());
    assert(line_view(out@[3]@)[0] == out@[3]@[0]@);
    assert(line_view(out@[0]@)[0] == out@[0]@[0]@);
}

/// What is said of the selected day: its date, how much of it is stored and how much is missing. A
/// status that is there is shown too.
pub proof fn lemma_selected_day_is_told(
    view: DatasetView,
    sync: Option<ActiveDaySync>,
    status: Option<String>,
    out: Vec<Vec<Piece>>,
    totals: (usize, usize, usize, &'static str),
    bar: String,
    date: String,
)
    requires
        view.valid(),
        view.has_day(),
        call_ensures(DatasetView::selected_day_summary, (&view, &sync, &status), out),
        call_ensures(
            sync_adjusted_day_totals,
            (&view, &view.days@[view.selected_day as int], &sync),
            totals,
        ),
        call_ensures(render_completion_bar, (totals.1, totals.0, 18), bar),
        call_ensures(Date::text, (&view.days@[view.selected_day as int].date,), date),
    ensures
        out@.len() == (if status is Some {
            4int
        } else {
            3int
        }),
        out@[0]@.len() == 3 && out@[0]@[0].text@ == date@ && out@[0]@[2].text@ == upper(totals.3@),
        out@[1]@.len() == 1 && out@[1]@[0].text@ == "coverage: "@ + bar@ + "   missing: "@ + decimal(
            totals.2 as nat,
        ),
        status matches Some(text) ==> out@[3]@.len() == 2 && out@[3]@[1].text@ == text@,
{
    let rows = lines_view(out@);
    assert(rows.len() == out@.len());
    assert(rows[0] == line_view(out@[0]@) && rows[1] == line_view(out@[1]@));
    assert(line_view(out@[0]@).len() == out@[0]@.len());
    assert(line_view(out@[1]@).len() == out@[1]@.len());
    assert(line_view(out@[0]@)[0] == out@[0]@[0]@ && line_view(out@[0]@)[2] == out@[0]@[2]@);
    assert(line_view(out@[1]@)[0] == out@[1]@[0]@);
    if status is Some {
        assert(rows[3] == line_view(out@[3]@));
        assert(line_view(out@[3]@).len() == out@[3]@.len());
        assert(line_view(out@[3]@)[1] == out@[3]@[1]@);
    }
}

/// Where the snapshots of a day are is told in the present where something is stored, and else in the
/// future. A key that says its place tells it: the directory of the first key, those stored first.
pub proof fn lemma_location_is_told(
    view: DatasetView,
    day: DayCoverage,
    out: String,
    layout: Layout,
    key: &str,
    path: Result<String, TickError>,
)
    requires
        call_ensures(format_snapshot_location, (&view, &day), out),
        layout@ == Seq::<char>::empty(),
        day.local_keys@.len() > 0 ==> key@ == day.local_keys@[0]@,
        day.local_keys@.len() == 0 ==> day.remote_keys@.len() > 0 && key@ == day.remote_keys@[0]@,
        call_ensures(Layout::data_path_for_key, (&layout, key), path),
    ensures
        day.local_keys@.len() > 0 ==> starts_with(out@, "stored under: "@),
        day.local_keys@.len() == 0 ==> starts_with(out@, "will store under: "@),
        path is Ok && parent(path->Ok_0@) is Some ==> ends_with(
            out@,
            forward_slashes(parent(path->Ok_0@)->0),
        ),
{
    let lead = if day.local_keys@.len() == 0 {
        "will store under: "@
    } else {
        "stored under: "@
    };
    let place = location_of(view, day);
    assert(out@ == lead + place);
    assert(out@.take(lead.len() as int) =~= lead);
    assert(out@.skip(out@.len() - place.len()) =~= place);
}

/// A root in the user's home is shown with `~` for the home, and any other as it is.
pub proof fn lemma_root_is_shown(root: &str, home: Option<String>, out: String)
    requires
        call_ensures(format_account_root, (root, &home), out),
    ensures
        home is None ==> out@ == root@,
        home matches Some(dir) ==> {
            &&& !is_under(root@, dir@) ==> out@ == root@
            &&& is_under(root@, dir@) ==> out@.len() > 0 && out@[0] == '~'
            &&& is_under(root@, dir@) && relative_text(root@, dir@).len() > 0 ==> out@.skip(2)
                == relative_text(root@, dir@)
        },
{
    reveal_strlit("~");
    reveal_strlit("~/");
    if let Some(dir) = home {
        if is_under(root@, dir@) && relative_text(root@, dir@).len() > 0 {
            assert(out@.skip(2) =~= relative_text(root@, dir@));
        }
    }
}

} // verus!
