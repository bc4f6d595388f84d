//! What the launcher window shows: the tabs, the colours of its buttons and
//! cards, and the content of the list below the tabs.

use vstd::prelude::*;
use crate::project::{Project, ProjectStatus};
use crate::store::{StoreGameItem, StoreGames, STORE_SIZE};
use crate::tables::{ActiveDownloads, StatusTable};
use crate::paths::{PathKey, path_key};

verus! {

/// The tab on show.
#[derive(Clone, Copy, Debug, PartialEq, Eq, Structural)]
pub enum ActiveTab {
    MyGames,
    Store,
}

impl Default for ActiveTab {
    fn default() -> (res: ActiveTab)
        ensures
            res == ActiveTab::MyGames,
    {
        ActiveTab::MyGames
    }
}

/// The interface settings kept between runs.
#[derive(Clone, Copy, Debug, PartialEq, Eq, Structural)]
pub struct UiConfig {
    pub active_tab: ActiveTab,
}

impl Default for UiConfig {
    fn default() -> (res: UiConfig)
        ensures
            res.active_tab == ActiveTab::MyGames,
    {
        UiConfig { active_tab: ActiveTab::MyGames }
    }
}

/// The kinds of button, which decide their colours.
#[derive(Clone, Copy, Debug, PartialEq, Eq, Structural)]
pub enum ButtonType {
    SelectFolder,
    Launch,
    Stop,
    Delete,
    Tab(ActiveTab),
    OpenLink,
    Quit,
    Download,
}

/// What pressing a button asks for.
#[derive(Clone, Debug, PartialEq, Eq)]
pub enum ButtonAction {
    SelectFolder,
    Launch(String),
    Stop(String),
    Delete(String),
    SwitchTab(ActiveTab),
    OpenUrl(String),
    Quit,
    Download { name: String, url: String },
}

/// How the pointer relates to a button or card.
#[derive(Clone, Copy, Debug, PartialEq, Eq, Structural)]
pub enum Interaction {
    Pressed,
    Hovered,
    Away,
}

/// The named colours of the window's buttons and cards.
#[derive(Clone, Copy, Debug, PartialEq, Eq, Structural)]
pub enum Swatch {
    Blue,
    BlueHover,
    BluePressed,
    Green,
    GreenHover,
    GreenPressed,
    Red,
    RedHover,
    RedPressed,
    DeleteFill,
    DeleteFillHover,
    DeleteFillPressed,
    DeleteEdge,
    DeleteEdgeHover,
    DeleteEdgePressed,
    TabIdle,
    TabIdleHover,
    TabIdlePressed,
    Cyan,
    CyanSoft,
    Outline,
}

/// The colours to give a button's fill and border; `None` leaves the
/// current one.
#[derive(Clone, Copy, Debug, PartialEq, Eq, Structural)]
pub struct Paint {
    pub fill: Option<Swatch>,
    pub border: Option<Swatch>,
}

/// The colours of a button of the given kind in the given interaction,
/// with `active` the tab on show. Blue buttons (folder, link, the tab on
/// show), green ones (launch, download) and red ones (stop, quit) darken
/// when pressed and lighten under the pointer; the delete button and the
/// tabs not on show are grey, and a tab's border lights up under the
/// pointer.
pub open spec fn button_paint(kind: ButtonType, interaction: Interaction, active: ActiveTab) -> Paint {
    let fill_only = |s: Swatch| Paint { fill: Some(s), border: None };
    match kind {
        ButtonType::SelectFolder | ButtonType::OpenLink => match interaction {
            Interaction::Pressed => fill_only(Swatch::BluePressed),
            Interaction::Hovered => fill_only(Swatch::BlueHover),
            Interaction::Away => fill_only(Swatch::Blue),
        },
        ButtonType::Launch | ButtonType::Download => match interaction {
            Interaction::Pressed => fill_only(Swatch::GreenPressed),
            Interaction::Hovered => fill_only(Swatch::GreenHover),
            Interaction::Away => fill_only(Swatch::Green),
        },
        ButtonType::Stop | ButtonType::Quit => match interaction {
            Interaction::Pressed => fill_only(Swatch::RedPressed),
            Interaction::Hovered => fill_only(Swatch::RedHover),
            Interaction::Away => fill_only(Swatch::Red),
        },
        ButtonType::Delete => match interaction {
            Interaction::Pressed => Paint {
                fill: Some(Swatch::DeleteFillPressed),
                border: Some(Swatch::DeleteEdgePressed),
            },
            Interaction::Hovered => Paint {
                fill: Some(Swatch::DeleteFillHover),
                border: Some(Swatch::DeleteEdgeHover),
            },
            Interaction::Away => Paint {
                fill: Some(Swatch::DeleteFill),
                border: Some(Swatch::DeleteEdge),
            },
        },
        ButtonType::Tab(tab) => {
            let on_show = tab == active;
            match interaction {
                Interaction::Pressed => fill_only(
                    if on_show {
                        Swatch::BluePressed
                    } else {
                        Swatch::TabIdlePressed
                    },
                ),
                Interaction::Hovered => Paint {
                    fill: Some(
                        if on_show {
                            Swatch::BlueHover
                        } else {
                            Swatch::TabIdleHover
                        },
                    ),
                    border: Some(Swatch::CyanSoft),
                },
                Interaction::Away => tab_paint(tab, active),
            }
        },
    }
}

/// The colours of a tab button at rest: blue with a cyan border for the
/// tab on show, grey with a dim border for the other.
pub open spec fn tab_paint(tab: ActiveTab, active: ActiveTab) -> Paint {
    if tab == active {
        Paint { fill: Some(Swatch::Blue), border: Some(Swatch::Cyan) }
    } else {
        Paint { fill: Some(Swatch::TabIdle), border: Some(Swatch::Outline) }
    }
}

/// The border of a project or store card in the given interaction.
pub open spec fn card_border(interaction: Interaction) -> Swatch {
    match interaction {
        Interaction::Pressed => Swatch::Cyan,
        Interaction::Hovered => Swatch::CyanSoft,
        Interaction::Away => Swatch::Outline,
    }
}

fn fill_with(s: Swatch) -> (res: Paint)
    ensures
        res == (Paint { fill: Some(s), border: None }),
{
    Paint { fill: Some(s), border: None }
}

/// The colours of a tab button at rest.
pub fn tab_button_paint(tab: ActiveTab, active: ActiveTab) -> (res: Paint)
    ensures
        res == tab_paint(tab, active),
{
    if tab == active {
        Paint { fill: Some(Swatch::Blue), border: Some(Swatch::Cyan) }
    } else {
        Paint { fill: Some(Swatch::TabIdle), border: Some(Swatch::Outline) }
    }
}

/// The colours of a button whose interaction changed.
pub fn paint_button(kind: ButtonType, interaction: Interaction, active: ActiveTab) -> (res: Paint)
    ensures
        res == button_paint(kind, interaction, active),
{
    match kind {
        ButtonType::SelectFolder | ButtonType::OpenLink => match interaction {
            Interaction::Pressed => fill_with(Swatch::BluePressed),
            Interaction::Hovered => fill_with(Swatch::BlueHover),
            Interaction::Away => fill_with(Swatch::Blue),
        },
        ButtonType::Launch | ButtonType::Download => match interaction {
            Interaction::Pressed => fill_with(Swatch::GreenPressed),
            Interaction::Hovered => fill_with(Swatch::GreenHover),
            Interaction::Away => fill_with(Swatch::Green),
        },
        ButtonType::Stop | ButtonType::Quit => match interaction {
            Interaction::Pressed => fill_with(Swatch::RedPressed),
            Interaction::Hovered => fill_with(Swatch::RedHover),
            Interaction::Away => fill_with(Swatch::Red),
        },
        ButtonType::Delete => match interaction {
            Interaction::Pressed => Paint {
                fill: Some(Swatch::DeleteFillPressed),
                border: Some(Swatch::DeleteEdgePressed),
            },
            Interaction::Hovered => Paint {
                fill: Some(Swatch::DeleteFillHover),
                border: Some(Swatch::DeleteEdgeHover),
            },
            Interaction::Away => Paint {
                fill: Some(Swatch::DeleteFill),
                border: Some(Swatch::DeleteEdge),
            },
        },
        ButtonType::Tab(tab) => {
            let on_show = tab == active;
            match interaction {
                Interaction::Pressed => fill_with(
                    if on_show {
                        Swatch::BluePressed
                    } else {
                        Swatch::TabIdlePressed
                    },
                ),
                Interaction::Hovered => Paint {
                    fill: Some(
                        if on_show {
                            Swatch::BlueHover
                        } else {
                            Swatch::TabIdleHover
                        },
                    ),
                    border: Some(Swatch::CyanSoft),
                },
                Interaction::Away => tab_button_paint(tab, active),
            }
        },
    }
}

/// The border of a card whose interaction changed.
pub fn paint_card(interaction: Interaction) -> (res: Swatch)
    ensures
        res == card_border(interaction),
{
    match interaction {
        Interaction::Pressed => Swatch::Cyan,
        Interaction::Hovered => Swatch::CyanSoft,
        Interaction::Away => Swatch::Outline,
    }
}

/// A tab button that is switched to or away from gets the same colours as
/// a tab button at rest that is redrawn: the two ways of colouring tabs
/// agree.
pub proof fn law_tab_colours_agree(tab: ActiveTab, active: ActiveTab)
    ensures
        tab_paint(tab, active) == button_paint(ButtonType::Tab(tab), Interaction::Away, active),
        tab_paint(tab, active).fill is Some && tab_paint(tab, active).border is Some,
{
}

/// The moment of a project's last launch, with never counting as zero.
pub open spec fn recency(p: Project) -> int {
    match p.last_launched {
        Some(t) => t as int,
        None => 0,
    }
}

/// Whether the project at `a` is listed before the one at `b`: launched
/// more recently, or at the same moment and earlier in the history.
pub open spec fn listed_before(ps: Seq<Project>, a: int, b: int) -> bool {
    recency(ps[a]) > recency(ps[b]) || (recency(ps[a]) == recency(ps[b]) && a < b)
}

/// How many projects the list shows.
pub const LIST_SIZE: usize = 5;

/// The number of projects shown out of `n`.
pub open spec fn shown_count(n: int) -> int {
    if n < LIST_SIZE {
        n
    } else {
        LIST_SIZE as int
    }
}

/// `order` lists the positions of the projects shown: the five (or fewer)
/// most recently launched, most recent first, projects launched at the same
/// moment in the order of the history.
pub open spec fn is_recent_order(ps: Seq<Project>, order: Seq<usize>) -> bool {
    &&& order.len() == shown_count(ps.len() as int)
    &&& forall|r: int| 0 <= r < order.len() ==> (#[trigger] order[r]) < ps.len()
    &&& forall|r1: int, r2: int|
        0 <= r1 < r2 < order.len() ==> listed_before(ps, #[trigger] order[r1] as int, #[trigger] order[r2] as int)
    &&& forall|i: int, r: int|
        0 <= i < ps.len() && left_out(order, i) && 0 <= r < order.len()
            ==> #[trigger] listed_before(ps, order[r] as int, i)
}

fn recency_of(p: &Project) -> (res: u64)
    ensures
        res == recency(*p),
{
    match p.last_launched {
        Some(t) => t,
        None => 0,
    }
}

fn is_listed_before(ps: &Vec<Project>, a: usize, b: usize) -> (res: bool)
    requires
        a < ps@.len(),
        b < ps@.len(),
    ensures
        res == listed_before(ps@, a as int, b as int),
{
    let ra = recency_of(&ps[a]);
    let rb = recency_of(&ps[b]);
    ra > rb || (ra == rb && a < b)
}

fn holds_index(order: &Vec<usize>, i: usize) -> (res: bool)
    ensures
        res == order@.contains(i),
{
    let mut k: usize = 0;
    while k < order.len()
        invariant
            k <= order@.len(),
            forall|j: int| 0 <= j < k ==> order@[j] != i,
        decreases order@.len() - k,
    {
        if order[k] == i {
            assert(order@[k as int] == i);
            return true;
        }
        k = k + 1;
    }
    false
}

/// The position `i` is not among those of `order`.
pub open spec fn left_out(order: Seq<usize>, i: int) -> bool {
    !order.contains(i as usize)
}

/// Fewer than `n` positions leave some position below `n` out.
proof fn lemma_some_position_left(order: Seq<usize>, n: int)
    requires
        order.len() < n <= usize::MAX,
    ensures
        exists|i: int| 0 <= i < n && #[trigger] left_out(order, i),
{
    if !exists|i: int| 0 <= i < n && #[trigger] left_out(order, i) {
        let s = order.map_values(|x: usize| x as int);
        assert(vstd::set_lib::set_int_range(0, n).subset_of(s.to_set())) by {
            assert forall|i: int| vstd::set_lib::set_int_range(0, n).contains(i) implies s.to_set().contains(i) by {
                assert(!left_out(order, i));
                let j = choose|j: int| 0 <= j < order.len() && order[j] == i as usize;
                assert(s[j] == i);
                assert(s.contains(i));
            }
        }
        s.lemma_cardinality_of_set();
        vstd::seq_lib::seq_to_set_is_finite(s);
        vstd::set_lib::lemma_int_range(0, n);
        vstd::set_lib::lemma_len_subset(vstd::set_lib::set_int_range(0, n), s.to_set());
        assert(false);
    }
}

/// The positions of the projects the list shows: the five (or fewer) most
/// recently launched, most recent first, projects launched at the same
/// moment (or never) in the order of the history.
pub fn recent_project_order(projects: &Vec<Project>) -> (res: Vec<usize>)
    ensures
        is_recent_order(projects@, res@),
{
    let n = projects.len();
    let m = if n < LIST_SIZE {
        n
    } else {
        LIST_SIZE
    };
    let mut order: Vec<usize> = Vec::new();
    while order.len() < m
        invariant
            n == projects@.len(),
            m == shown_count(n as int),
            order@.len() <= m,
            forall|r: int| 0 <= r < order@.len() ==> (#[trigger] order@[r]) < n,
            forall|r1: int, r2: int|
                0 <= r1 < r2 < order@.len() ==> listed_before(
                    projects@,
                    #[trigger] order@[r1] as int,
                    #[trigger] order@[r2] as int,
                ),
            forall|i: int, r: int|
                0 <= i < n && left_out(order@, i) && 0 <= r < order@.len()
                    ==> #[trigger] listed_before(projects@, order@[r] as int, i),
        decreases m - order@.len(),
    {
        let mut best: Option<usize> = None;
        let mut i: usize = 0;
        while i < n
            invariant
                n == projects@.len(),
                i <= n,
                match best {
                    Some(b) => b < i && !order@.contains(b) && forall|j: int|
                        0 <= j < i && j != b && #[trigger] left_out(order@, j) ==> listed_before(
                            projects@,
                            b as int,
                            j,
                        ),
                    None => forall|j: int| 0 <= j < i ==> !#[trigger] left_out(order@, j),
                },
            decreases n - i,
        {
            if !holds_index(&order, i) {
                match best {
                    Some(b) => {
                        if is_listed_before(projects, i, b) {
                            best = Some(i);
                        }
                    },
                    None => {
                        best = Some(i);
                    },
                }
            }
            i = i + 1;
        }
        proof {
            lemma_some_position_left(order@, n as int);
            let w = choose|w: int| 0 <= w < n && #[trigger] left_out(order@, w);
            assert(!order@.contains(w as usize));
        }
        let b = match best {
            Some(b) => b,
            None => {
                assert(false);
                0
            },
        };
        let ghost old_order = order@;
        order.push(b);
        proof {
            assert forall|i: int| 0 <= i < n && #[trigger] left_out(order@, i) implies left_out(
                old_order,
                i,
            ) && i != b by {
                if old_order.contains(i as usize) {
                    let j = choose|j: int| 0 <= j < old_order.len() && old_order[j] == i as usize;
                    assert(order@[j] == i as usize);
                }
                if i == b {
                    assert(order@[old_order.len() as int] == b);
                }
            }
            assert forall|r: int| 0 <= r < old_order.len() implies old_order[r] != b by {
                assert(old_order.contains(old_order[r]));
            }
        }
    }
    order
}

/// The primary button of a project card: stop a running game, else launch.
#[derive(Clone, Debug, PartialEq, Eq)]
pub enum PrimaryAction {
    Launch,
    Stop,
}

/// Stop for a running project, launch for any other.
pub fn primary_action(status: ProjectStatus) -> (res: PrimaryAction)
    ensures
        res is Stop <==> status == ProjectStatus::Running,
{
    match status {
        ProjectStatus::Running => PrimaryAction::Stop,
        _ => PrimaryAction::Launch,
    }
}

/// The word on a project's status badge.
pub open spec fn status_label(status: ProjectStatus) -> Seq<char> {
    match status {
        ProjectStatus::Idle => "Idle"@,
        ProjectStatus::Running => "Running"@,
        ProjectStatus::FailedLaunch => "Failed"@,
        ProjectStatus::Invalid => "Invalid"@,
    }
}

/// The word on a project's status badge.
pub fn badge_label(status: ProjectStatus) -> (res: &'static str)
    ensures
        res@ == status_label(status),
{
    match status {
        ProjectStatus::Idle => "Idle",
        ProjectStatus::Running => "Running",
        ProjectStatus::FailedLaunch => "Failed",
        ProjectStatus::Invalid => "Invalid",
    }
}

/// What a store card offers: the game is already in the library, is being
/// installed, or can be downloaded.
#[derive(Clone, Copy, Debug, PartialEq, Eq, Structural)]
pub enum DownloadBadge {
    InLibrary,
    Installing,
    Download,
}

/// A game already cloned is in the library; else one being downloaded is
/// installing; else it can be downloaded.
pub open spec fn download_badge_of(downloaded: bool, downloading: bool) -> DownloadBadge {
    if downloaded {
        DownloadBadge::InLibrary
    } else if downloading {
        DownloadBadge::Installing
    } else {
        DownloadBadge::Download
    }
}

pub fn download_badge(downloaded: bool, downloading: bool) -> (res: DownloadBadge)
    ensures
        res == download_badge_of(downloaded, downloading),
{
    if downloaded {
        DownloadBadge::InLibrary
    } else if downloading {
        DownloadBadge::Installing
    } else {
        DownloadBadge::Download
    }
}

/// A project card of the list.
#[derive(Clone, Debug, PartialEq, Eq)]
pub struct ProjectCardView {
    pub name: String,
    pub path: String,
    pub status: ProjectStatus,
}

/// A store card of the list.
#[derive(Clone, Debug, PartialEq, Eq)]
pub struct StoreCardView {
    pub name: String,
    pub owner: String,
    pub description: String,
    pub stars: u32,
    pub url: String,
    pub badge: DownloadBadge,
}

/// The content of the list below the tabs.
#[derive(Clone, Debug, PartialEq, Eq)]
pub enum ListView {
    /// The history is empty.
    NoProjects,
    /// The projects shown, in order.
    Projects(Vec<ProjectCardView>),
    /// The store search still runs.
    StoreLoading,
    /// The store search failed with this error.
    StoreFailed(String),
    /// The store search found nothing.
    StoreEmpty,
    /// The store games shown, in order.
    StoreCards(Vec<StoreCardView>),
}

/// The status shown for a path: the one recorded for its components,
/// `Idle` where there is none.
pub open spec fn shown_status(statuses: Map<PathKey, ProjectStatus>, path: Seq<char>) -> ProjectStatus {
    if statuses.dom().contains(path_key(path)) {
        statuses[path_key(path)]
    } else {
        ProjectStatus::Idle
    }
}

/// The cards are those of the projects at the positions of `order`.
pub open spec fn cards_match(
    cards: Seq<ProjectCardView>,
    ps: Seq<Project>,
    order: Seq<usize>,
    statuses: Map<PathKey, ProjectStatus>,
) -> bool {
    &&& cards.len() == order.len()
    &&& forall|r: int|
        0 <= r < cards.len() ==> {
            let p = ps[order[r] as int];
            &&& (#[trigger] cards[r]).name == p.name
            &&& cards[r].path == p.path
            &&& cards[r].status == shown_status(statuses, p.path@)
        }
}

/// The cards are those of the first five store games.
pub open spec fn store_cards_match(
    cards: Seq<StoreCardView>,
    items: Seq<StoreGameItem>,
    downloaded: Seq<bool>,
    downloading: Set<Seq<char>>,
) -> bool {
    &&& cards.len() == (if items.len() < STORE_SIZE {
        items.len() as int
    } else {
        STORE_SIZE as int
    })
    &&& forall|k: int|
        0 <= k < cards.len() ==> {
            let it = items[k];
            &&& (#[trigger] cards[k]).name == it.name
            &&& cards[k].owner == it.owner
            &&& cards[k].description == it.description
            &&& cards[k].stars == it.stars
            &&& cards[k].url == it.url
            &&& cards[k].badge == download_badge_of(downloaded[k], downloading.contains(it.name@))
        }
}

/// The store cards show the first five store games, in order, one card
/// each: each card carries the name, owner, description, stars and address
/// of the game it shows, so that its buttons open and clone that game's
/// repository; its badge says whether the game is in the library, being
/// installed, or can be downloaded.
pub proof fn law_store_cards_show_their_games(
    cards: Seq<StoreCardView>,
    items: Seq<StoreGameItem>,
    downloaded: Seq<bool>,
    downloading: Set<Seq<char>>,
)
    requires
        store_cards_match(cards, items, downloaded, downloading),
    ensures
        cards.len() <= 5,
        cards.len() <= items.len(),
        items.len() <= 5 ==> cards.len() == items.len(),
        forall|k: int|
            0 <= k < cards.len() ==> {
                &&& (#[trigger] cards[k]).url == items[k].url
                &&& cards[k].name == items[k].name
                &&& cards[k].owner == items[k].owner
                &&& cards[k].description == items[k].description
                &&& cards[k].stars == items[k].stars
                &&& cards[k].badge == if downloaded[k] {
                    DownloadBadge::InLibrary
                } else if downloading.contains(items[k].name@) {
                    DownloadBadge::Installing
                } else {
                    DownloadBadge::Download
                }
            },
{
    assert forall|k: int| 0 <= k < cards.len() implies (#[trigger] cards[k]).badge == if downloaded[k] {
        DownloadBadge::InLibrary
    } else if downloading.contains(items[k].name@) {
        DownloadBadge::Installing
    } else {
        DownloadBadge::Download
    } by {
        assert(cards[k].badge == download_badge_of(downloaded[k], downloading.contains(items[k].name@)));
    }
}

fn project_cards(projects: &Vec<Project>, statuses: &StatusTable) -> (res: Vec<ProjectCardView>)
    ensures
        exists|order: Seq<usize>|
            is_recent_order(projects@, order) && cards_match(res@, projects@, order, statuses@),
{
    let order = recent_project_order(projects);
    let mut cards: Vec<ProjectCardView> = Vec::new();
    let mut r: usize = 0;
    while r < order.len()
        invariant
            is_recent_order(projects@, order@),
            r <= order@.len(),
            cards@.len() == r,
            forall|q: int|
                0 <= q < r ==> {
                    let p = projects@[order@[q] as int];
                    &&& (#[trigger] cards@[q]).name == p.name
                    &&& cards@[q].path == p.path
                    &&& cards@[q].status == shown_status(statuses@, p.path@)
                },
        decreases order@.len() - r,
    {
        let p = &projects[order[r]];
        let status = statuses.status_of(p.path.as_str());
        cards.push(ProjectCardView { name: p.name.clone(), path: p.path.clone(), status });
        r = r + 1;
    }
    cards
}

fn store_cards(items: &Vec<StoreGameItem>, downloaded: &Vec<bool>, downloads: &ActiveDownloads) -> (res: Vec<StoreCardView>)
    requires
        downloaded@.len() == items@.len(),
    ensures
        store_cards_match(res@, items@, downloaded@, downloads@),
{
    let n = if items.len() < STORE_SIZE {
        items.len()
    } else {
        STORE_SIZE
    };
    let mut cards: Vec<StoreCardView> = Vec::new();
    let mut k: usize = 0;
    while k < n
        invariant
            n <= items@.len(),
            n == (if items@.len() < STORE_SIZE {
                items@.len() as int
            } else {
                STORE_SIZE as int
            }),
            downloaded@.len() == items@.len(),
            k <= n,
            cards@.len() == k,
            forall|q: int|
                0 <= q < k ==> {
                    let it = items@[q];
                    &&& (#[trigger] cards@[q]).name == it.name
                    &&& cards@[q].owner == it.owner
                    &&& cards@[q].description == it.description
                    &&& cards@[q].stars == it.stars
                    &&& cards@[q].url == it.url
                    &&& cards@[q].badge == download_badge_of(
                        downloaded@[q],
                        downloads@.contains(it.name@),
                    )
                },
        decreases n - k,
    {
        let it = &items[k];
        let badge = download_badge(downloaded[k], downloads.contains(it.name.as_str()));
        cards.push(
            StoreCardView {
                name: it.name.clone(),
                owner: it.owner.clone(),
                description: it.description.clone(),
                stars: it.stars,
                url: it.url.clone(),
                badge,
            },
        );
        k = k + 1;
    }
    cards
}

/// The content of the list for the tab on show. On the games tab: a notice
/// where the history is empty, else the cards of the five most recently
/// launched projects with their statuses. On the store tab: a notice while
/// the search runs, the error where it failed, a notice where it found
/// nothing, else the cards of the first five games; `downloaded[k]` tells
/// whether the folder of the `k`-th game exists.
pub fn list_view(
    tab: ActiveTab,
    projects: &Vec<Project>,
    statuses: &StatusTable,
    store: &StoreGames,
    downloaded: &Vec<bool>,
    downloads: &ActiveDownloads,
) -> (res: ListView)
    requires
        downloaded@.len() == store.items@.len(),
    ensures
        match tab {
            ActiveTab::MyGames => if projects@.len() == 0 {
                res is NoProjects
            } else {
                res matches ListView::Projects(cards) && exists|order: Seq<usize>|
                    is_recent_order(projects@, order) && cards_match(cards@, projects@, order, statuses@)
            },
            ActiveTab::Store => if store.loading {
                res is StoreLoading
            } else if store.error is Some {
                res matches ListView::StoreFailed(e) && Some(e) == store.error
            } else if store.items@.len() == 0 {
                res is StoreEmpty
            } else {
                res matches ListView::StoreCards(cards) && store_cards_match(
                    cards@,
                    store.items@,
                    downloaded@,
                    downloads@,
                )
            },
        },
{
    match tab {
        ActiveTab::MyGames => {
            if projects.len() == 0 {
                ListView::NoProjects
            } else {
                ListView::Projects(project_cards(projects, statuses))
            }
        },
        ActiveTab::Store => {
            if store.loading {
                ListView::StoreLoading
            } else {
                match &store.error {
                    Some(e) => ListView::StoreFailed(e.clone()),
                    None => {
                        if store.items.len() == 0 {
                            ListView::StoreEmpty
                        } else {
                            ListView::StoreCards(store_cards(&store.items, downloaded, downloads))
                        }
                    },
                }
            }
        },
    }
}

/// The list shows at most five projects, each a project of the history,
/// no project twice, more recently launched ones first.
pub proof fn law_recent_list_shape(ps: Seq<Project>, order: Seq<usize>)
    requires
        is_recent_order(ps, order),
    ensures
        order.len() <= LIST_SIZE,
        order.len() <= ps.len(),
        forall|r: int| 0 <= r < order.len() ==> (#[trigger] order[r]) < ps.len(),
        forall|r1: int, r2: int|
            0 <= r1 < r2 < order.len() ==> #[trigger] order[r1] != #[trigger] order[r2] && recency(
                ps[order[r1] as int],
            ) >= recency(ps[order[r2] as int]),
{
}

/// The projects shown are fixed by the history alone: two lists that both
/// meet the description of the recent projects are the same.
pub proof fn law_recent_order_unique(ps: Seq<Project>, o1: Seq<usize>, o2: Seq<usize>)
    requires
        is_recent_order(ps, o1),
        is_recent_order(ps, o2),
    ensures
        o1 == o2,
{
    assert forall|r: int| 0 <= r < o1.len() implies o1[r] == o2[r] by {
        lemma_orders_agree_at(ps, o1, o2, r);
    }
    assert(o1 =~= o2);
}

proof fn lemma_orders_agree_at(ps: Seq<Project>, o1: Seq<usize>, o2: Seq<usize>, r: int)
    requires
        is_recent_order(ps, o1),
        is_recent_order(ps, o2),
        0 <= r < o1.len(),
    ensures
        o1[r] == o2[r],
    decreases r,
{
    if r > 0 {
        lemma_orders_agree_at(ps, o1, o2, r - 1);
    }
    let a = o1[r];
    let b = o2[r];
    if a != b {
        // Each of a and b comes before the other.
        if o2.contains(a) {
            let j = choose|j: int| 0 <= j < o2.len() && o2[j] == a;
            if j < r {
                // o2[j] == o1[j] by the earlier positions, and o1 holds no index twice.
                assert(forall|q: int| 0 <= q < r ==> o1[q] == o2[q]) by {
                    assert forall|q: int| 0 <= q < r implies o1[q] == o2[q] by {
                        lemma_orders_agree_at(ps, o1, o2, q);
                    }
                }
                assert(o1[j] == a);
                assert(listed_before(ps, o1[j] as int, o1[r] as int));
            } else {
                assert(listed_before(ps, b as int, a as int));
            }
        } else {
            assert(listed_before(ps, b as int, a as int));
        }
        if o1.contains(b) {
            let j = choose|j: int| 0 <= j < o1.len() && o1[j] == b;
            if j < r {
                assert(forall|q: int| 0 <= q < r ==> o1[q] == o2[q]) by {
                    assert forall|q: int| 0 <= q < r implies o1[q] == o2[q] by {
                        lemma_orders_agree_at(ps, o1, o2, q);
                    }
                }
                assert(o2[j] == b);
                assert(listed_before(ps, o2[j] as int, o2[r] as int));
            } else {
                assert(listed_before(ps, a as int, b as int));
            }
        } else {
            assert(listed_before(ps, a as int, b as int));
        }
    }
}

} // verus!
