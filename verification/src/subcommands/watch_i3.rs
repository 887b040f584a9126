//! Watching the workspaces of the window manager: which activity a
//! workspace stands for.

use crate::collector::text_of;
use crate::configfile::WatchI3Config;
use crate::log_parser::{
    asked_as,
    break_name,
    distributable_name,
    info_for,
    is_break,
    is_distributable,
    is_start,
    known_to,
    start_name,
    tags_of,
    title_of,
    Block,
    BlockData,
    BlockDataView,
    BlockView,
    TTInfo,
    TTInfoView,
};
use crate::name_map::NameMap;
use crate::subcommands::add::ActivityMap;
use crate::text::same_text;
use crate::time::Time;
use vstd::prelude::*;

verus! {

/// The text of a string that may be missing.
pub fn as_str(opt: &Option<String>) -> (text: Option<&str>)
    ensures
        text is Some <==> opt is Some,
        text matches Some(s) ==> s@ == opt->0@,
{
    match opt {
        Some(s) => Some(s.as_str()),
        None => None,
    }
}

/// The pattern of the name of a workspace that stands for an activity:
/// a number and a colon, or neither, then white space, or none, and then
/// the activity, which begins with a letter or an underscore.
pub const WSACTIVITY_RE: &'static str = r"^(?:\d*:)?\s*([[:alpha:]_].*)$";

/// A rectangle on the screen.
#[derive(Copy, Clone, Debug)]
pub struct I3Rectangle {
    pub x: u16,
    pub y: u16,
    pub width: u16,
    pub height: u16,
}

/// A workspace as the window manager describes it.
#[derive(Clone, Debug)]
pub struct I3Workspace {
    pub num: i16,
    pub name: String,
    pub visible: bool,
    pub focused: bool,
    pub rect: I3Rectangle,
    pub output: String,
    pub urgent: bool,
}

/// What the first group of a pattern of the `regex` crate holds at the
/// first match of the pattern in a text: nothing at all if this is no
/// pattern; else nothing if there is no match or the group took no part
/// in it; else the part of the text that the group matched.
pub uninterp spec fn first_group(pattern: Seq<char>, text: Seq<char>) -> Option<Option<Seq<char>>>;

/// `regex::Regex::new` for the pattern, then `Regex::captures` on the
/// text, and of the match `Captures::get` for the first group.
#[verifier::external_body]
fn match_first_group(pattern: &str, text: &str) -> (group: Option<Option<String>>)
    ensures
        match first_group(pattern@, text@) {
            None => group is None,
            Some(None) => group matches Some(None),
            Some(Some(part)) => group matches Some(Some(s)) && s@ == part,
        },
{
    match regex::Regex::new(pattern) {
        Err(_) => None,
        Ok(re) => match re.captures(text) {
            None => Some(None),
            Some(found) => match found.get(1) {
                None => Some(None),
                Some(part) => Some(Some(part.as_str().to_string())),
            },
        },
    }
}

/// The activity that a name of a workspace gives, if the group of the
/// pattern has matched.
pub open spec fn activity_named(group: Option<Option<Seq<char>>>) -> Option<Seq<char>> {
    match group {
        Some(Some(part)) => Some(part),
        _ => None,
    }
}

/// The activity that the answer of the pattern gives.
pub fn activity_from(group: Option<Option<String>>) -> (activity: Option<String>)
    ensures
        crate::collector::text_of(activity) == activity_named(
            match group {
                Some(Some(s)) => Some(Some(s@)),
                Some(None) => Some(None),
                None => None,
            },
        ),
{
    match group {
        Some(Some(part)) => Some(part),
        _ => None,
    }
}

impl I3Workspace {
    /// The activity that the workspace stands for, if its name gives one.
    pub fn activity(&self) -> (activity: Option<String>)
        ensures
            crate::collector::text_of(activity) == activity_named(
                first_group(WSACTIVITY_RE@, self.name@),
            ),
    {
        activity_from(match_first_group(WSACTIVITY_RE, self.name.as_str()))
    }
}

/// What has been seen of the workspaces while an activity went on.
pub struct WatchState {
    /// For each output of the screen how often a workspace on it had the
    /// focus.
    pub focus_counter: NameMap<u16>,
    /// The activity that was going on when the workspaces were looked at
    /// last.
    pub prev_tt_activity: Option<TTInfo>,
    /// The largest count so far.
    pub max_count: u16,
    /// The numbers of the workspaces that have been seen.
    pub known_ws: Vec<i16>,
    /// The title of the workspace for which an entry was logged last.
    pub prev_focus_name: Option<String>,
}

/// What is to be done after a look at the workspaces.
#[derive(Debug, PartialEq, Eq)]
pub enum WatchAction {
    Nothing,
    /// Give the workspace of this name and number the title.
    Rename { name: String, num: i16, title: String },
    /// Log the block.
    Log(Block),
}

/// What a `WatchAction` holds.
pub enum WatchActionView {
    Nothing,
    Rename { name: Seq<char>, num: i16, title: Seq<char> },
    Log(BlockView),
}

impl View for WatchAction {
    type V = WatchActionView;

    open spec fn view(&self) -> WatchActionView {
        match *self {
            WatchAction::Nothing => WatchActionView::Nothing,
            WatchAction::Rename { name, num, title } => WatchActionView::Rename {
                name: name@,
                num,
                title: title@,
            },
            WatchAction::Log(block) => WatchActionView::Log(block@),
        }
    }
}

/// How many looks at the workspaces make up the time that a workspace
/// with a title, and one without, must keep the focus; nothing if the
/// looks follow each other without a pause.
pub fn min_counts(config: &WatchI3Config) -> (counts: Option<(u16, u16)>)
    ensures
        counts is Some <==> config.granularity > 0,
        counts matches Some(c) ==> c.0 == (config.timeblock / config.granularity) % 0x1_0000 && c.1
            == (config.timeblock_empty / config.granularity) % 0x1_0000,
{
    if config.granularity == 0 {
        None
    } else {
        Some(
            (
                ((config.timeblock / config.granularity) % 0x1_0000) as u16,
                ((config.timeblock_empty / config.granularity) % 0x1_0000) as u16,
            ),
        )
    }
}

/// The view of an activity that may be missing.
pub open spec fn info_of(info: Option<TTInfo>) -> Option<TTInfoView> {
    match info {
        Some(i) => Some(i@),
        None => None,
    }
}

/// The place of the first workspace that has the focus, if one has.
pub open spec fn focus_place(workspaces: Seq<I3Workspace>) -> Option<int>
    decreases workspaces.len(),
{
    if workspaces.len() == 0 {
        None
    } else if workspaces[0].focused {
        Some(0)
    } else {
        match focus_place(workspaces.drop_first()) {
            Some(at) => Some(at + 1),
            None => None,
        }
    }
}

/// Whether a workspace of `workspaces` has the number `num`.
pub open spec fn has_number(workspaces: Seq<I3Workspace>, num: i16) -> bool {
    exists|i: int| 0 <= i < workspaces.len() && (#[trigger] workspaces[i]).num == num
}

/// One more than `count`, unless that is too large for the counter.
pub open spec fn one_more(count: u16) -> u16 {
    if count < u16::MAX {
        (count + 1) as u16
    } else {
        count
    }
}

/// The count for an output after one more look at which a workspace on it
/// has the focus.
pub open spec fn counted(counts: Map<Seq<char>, u16>, output: Seq<char>) -> u16 {
    if counts.contains_key(output) {
        one_more(counts[output])
    } else {
        1
    }
}

impl WatchState {
    /// The state before the first look, when the workspaces with the
    /// numbers `known_ws` are there.
    pub fn new(known_ws: Vec<i16>) -> (state: WatchState)
        ensures
            state.focus_counter@ == Map::<Seq<char>, u16>::empty(),
            state.prev_tt_activity is None,
            state.max_count == 0,
            state.known_ws == known_ws,
            state.prev_focus_name is None,
    {
        WatchState {
            focus_counter: NameMap::new(),
            prev_tt_activity: None,
            max_count: 0,
            known_ws,
            prev_focus_name: None,
        }
    }

    /// Whether the workspace with the number `num` has been seen.
    pub fn knows(&self, num: i16) -> (yes: bool)
        ensures
            yes == self.known_ws@.contains(num),
    {
        let mut i: usize = 0;
        while i < self.known_ws.len()
            invariant
                i <= self.known_ws.len(),
                forall|j: int| 0 <= j < i ==> self.known_ws@[j] != num,
            decreases self.known_ws.len() - i,
        {
            if self.known_ws[i] == num {
                return true;
            }
            i += 1;
        }
        false
    }

    /// Takes note of the activity that is going on. If it is another one
    /// than at the look before, the counts begin anew, and the answer is
    /// yes: this look is over.
    pub fn activity_changed(&mut self, tt_activity: &Option<TTInfo>) -> (changed: bool)
        ensures
            changed == (info_of(*tt_activity) != info_of(old(self).prev_tt_activity)),
            changed ==> {
                &&& final(self).focus_counter@ == Map::<Seq<char>, u16>::empty()
                &&& final(self).max_count == 0
                &&& info_of(final(self).prev_tt_activity) == info_of(*tt_activity)
                &&& final(self).known_ws == old(self).known_ws
                &&& final(self).prev_focus_name == old(self).prev_focus_name
            },
            !changed ==> *final(self) == *old(self),
    {
        let same = match (tt_activity, &self.prev_tt_activity) {
            (None, None) => true,
            (Some(now), Some(before)) => {
                same_text(now.activity.as_str(), before.activity.as_str()) && match (
                    &now.shortname,
                    &before.shortname,
                ) {
                    (None, None) => true,
                    (Some(a), Some(b)) => same_text(a.as_str(), b.as_str()),
                    _ => false,
                }
            },
            _ => false,
        };
        if same {
            return false;
        }
        self.focus_counter = NameMap::new();
        self.max_count = 0;
        self.prev_tt_activity = match tt_activity {
            Some(info) => Some(
                TTInfo {
                    activity: info.activity.clone(),
                    shortname: match &info.shortname {
                        Some(s) => Some(s.clone()),
                        None => None,
                    },
                },
            ),
            None => None,
        };
        true
    }

    /// Takes note of the workspaces that are there: of those that have
    /// been seen only these stay known, and the output of the workspace
    /// that has the focus counts one more. Returns the place of the
    /// workspace that has the focus and the count of its output, or
    /// nothing if no workspace has the focus.
    pub fn count_focus(&mut self, workspaces: &Vec<I3Workspace>) -> (focus: Option<(usize, u16)>)
        ensures
            forall|num: i16| #[trigger]
                final(self).known_ws@.contains(num) <==> old(self).known_ws@.contains(num)
                    && has_number(workspaces@, num),
            final(self).prev_tt_activity == old(self).prev_tt_activity,
            final(self).prev_focus_name == old(self).prev_focus_name,
            match focus_place(workspaces@) {
                None => {
                    &&& focus is None
                    &&& final(self).focus_counter@ == old(self).focus_counter@
                    &&& final(self).max_count == old(self).max_count
                },
                Some(at) => {
                    let output = workspaces@[at].output@;
                    let count = counted(old(self).focus_counter@, output);
                    &&& 0 <= at < workspaces.len()
                    &&& focus == Some((at as usize, count))
                    &&& final(self).focus_counter@ == old(self).focus_counter@.insert(output, count)
                    &&& final(self).max_count == if count > old(self).max_count {
                        count
                    } else {
                        old(self).max_count
                    }
                },
            },
    {
        let mut still_known: Vec<i16> = Vec::new();
        let mut i: usize = 0;
        while i < workspaces.len()
            invariant
                i <= workspaces.len(),
                *self == *old(self),
                forall|num: i16| #[trigger]
                    still_known@.contains(num) <==> self.known_ws@.contains(num) && has_number(
                        workspaces@.take(i as int),
                        num,
                    ),
            decreases workspaces.len() - i,
        {
            let num = workspaces[i].num;
            let ghost before = still_known@;
            let known = self.knows(num);
            if known {
                still_known.push(num);
            }
            proof {
                let done = workspaces@.take(i as int);
                let next = workspaces@.take(i + 1);
                assert forall|other: i16| #[trigger]
                    still_known@.contains(other) <==> self.known_ws@.contains(other) && has_number(
                        next,
                        other,
                    ) by {
                    if has_number(done, other) {
                        let j = choose|j: int| 0 <= j < done.len() && (#[trigger] done[j]).num == other;
                        assert(next[j].num == other);
                    }
                    if has_number(next, other) {
                        let j = choose|j: int| 0 <= j < next.len() && (#[trigger] next[j]).num == other;
                        if j < i {
                            assert(done[j].num == other);
                        }
                    }
                    assert(next[i as int].num == num);
                    if before.contains(other) {
                        let j = choose|j: int| 0 <= j < before.len() && before[j] == other;
                        assert(still_known@[j] == other);
                    }
                    if known && other == num {
                        assert(still_known@[still_known.len() - 1] == other);
                    }
                    if still_known@.contains(other) {
                        let j = choose|j: int| 0 <= j < still_known@.len() && still_known@[j] == other;
                        if j < before.len() {
                            assert(before[j] == other);
                        }
                    }
                }
            }
            i += 1;
        }
        proof {
            assert(workspaces@.take(workspaces.len() as int) =~= workspaces@);
        }
        self.known_ws = still_known;
        let mut at: usize = 0;
        proof {
            assert(workspaces@.skip(0) =~= workspaces@);
        }
        while at < workspaces.len()
            invariant
                at <= workspaces.len(),
                focus_place(workspaces@) == match focus_place(workspaces@.skip(at as int)) {
                    Some(p) => Some(p + at),
                    None => None,
                },
            ensures
                at < workspaces.len() ==> workspaces@[at as int].focused,
            decreases workspaces.len() - at,
        {
            if workspaces[at].focused {
                break;
            }
            proof {
                assert(workspaces@.skip(at as int).drop_first() =~= workspaces@.skip(at + 1));
            }
            at += 1;
        }
        if at >= workspaces.len() {
            proof {
                assert(workspaces@.skip(at as int).len() == 0);
            }
            return None;
        }
        proof {
            assert(workspaces@.skip(at as int)[0] == workspaces@[at as int]);
        }
        let output = &workspaces[at].output;
        let count: u16 = match self.focus_counter.get(output.as_str()) {
            Some(before) => if *before < u16::MAX {
                *before + 1
            } else {
                *before
            },
            None => 1,
        };
        self.focus_counter.insert(output.clone(), count);
        if count > self.max_count {
            self.max_count = count;
        }
        Some((at, count))
    }
}

/// Whether the workspace that has the focus is a new one without a
/// title: its number has not been seen, and its name gives no activity.
pub open spec fn is_new_workspace(known: Seq<i16>, num: i16, named: Option<Seq<char>>) -> bool {
    !known.contains(num) && named is None
}

/// The activity that the workspace with the focus stands for.
pub open spec fn focus_info(
    activities: Option<Map<Seq<char>, (Seq<char>, Seq<Seq<char>>)>>,
    named: Option<Seq<char>>,
) -> TTInfoView {
    info_for(
        activities,
        match named {
            Some(name) => name,
            None => Seq::empty(),
        },
    )
}

/// Whether the focus has settled on a workspace: its output has the
/// largest count, and the count makes up the time that a workspace with
/// such a title must keep the focus.
pub open spec fn has_settled(
    count: u16,
    max_count: u16,
    min_count: u16,
    min_count_empty: u16,
    title: Seq<char>,
) -> bool {
    &&& count >= max_count
    &&& count >= min_count || count >= min_count_empty
    &&& count >= if title.len() == 0 {
        min_count_empty
    } else {
        min_count
    }
}

/// Whether the activity is to be switched to the one of the workspace
/// with the title `title`: an activity is going on that is no break and
/// has another title, and the title is not the one that was logged last.
pub open spec fn is_switch(
    current: Option<TTInfoView>,
    title: Seq<char>,
    previous_title: Option<Seq<char>>,
) -> bool {
    &&& current matches Some(activity)
    &&& !break_name(activity.activity)
    &&& title_of(activity) != title
    &&& previous_title matches Some(previous) ==> previous != title
}

/// The entry that switches from the activity `current` to the one of the
/// workspace with the focus. It begins when the workspace got the focus,
/// `count` looks of `granularity` seconds ago, but not before the current
/// activity began; unless the current activity is the start of something
/// unknown, which is corrected to be this activity as of now.
pub open spec fn switch_block(
    current: TTInfoView,
    focus: TTInfoView,
    now: int,
    granularity: u64,
    count: u16,
    final_start: Option<int>,
) -> BlockView {
    let got_focus = (now - granularity * count) % 86_400;
    let earliest = match final_start {
        Some(start) => start,
        None => 0,
    };
    let really = start_name(asked_as(current));
    let data = BlockDataView {
        start: if really {
            now
        } else if got_focus >= earliest {
            got_focus
        } else {
            earliest
        },
        activity: asked_as(focus),
        tags: tags_of(focus),
        distribute: distributable_name(focus.activity),
    };
    if really {
        BlockView::Really(data)
    } else {
        BlockView::Normal(data)
    }
}

/// What is to be done when the workspace `focus_ws` has the focus: a new
/// workspace without a title gets the title of the activity that is going
/// on, unless that is a break; and when the focus has settled on a
/// workspace of another activity, that activity is logged.
pub open spec fn action_for(
    known: Seq<i16>,
    max_count: u16,
    previous_title: Option<Seq<char>>,
    focus_ws: I3Workspace,
    named: Option<Seq<char>>,
    count: u16,
    current: Option<TTInfoView>,
    activities: Option<Map<Seq<char>, (Seq<char>, Seq<Seq<char>>)>>,
    final_start: Option<int>,
    now: int,
    granularity: u64,
    min_count: u16,
    min_count_empty: u16,
) -> WatchActionView {
    let focus = focus_info(activities, named);
    if is_new_workspace(known, focus_ws.num, named) {
        match current {
            Some(activity) => if !start_name(title_of(activity)) && !break_name(title_of(activity)) {
                WatchActionView::Rename {
                    name: focus_ws.name@,
                    num: focus_ws.num,
                    title: title_of(activity),
                }
            } else {
                WatchActionView::Nothing
            },
            None => WatchActionView::Nothing,
        }
    } else if has_settled(count, max_count, min_count, min_count_empty, title_of(focus))
        && is_switch(current, title_of(focus), previous_title) {
        WatchActionView::Log(switch_block(current->0, focus, now, granularity, count, final_start))
    } else {
        WatchActionView::Nothing
    }
}

impl WatchState {
    /// Decides what is to be done when the workspace `focus_ws`, whose
    /// name gives the activity `named`, has the focus and its output has
    /// the count `focus_count`. A new workspace becomes known. When the
    /// focus has settled the counts begin anew; and when an entry is
    /// logged for a workspace, its title is kept in mind, so that no
    /// second entry is logged for it right away.
    pub fn watch_focus(
        &mut self,
        focus_ws: &I3Workspace,
        named: Option<String>,
        focus_count: u16,
        tt_activity: &Option<TTInfo>,
        activity_map: Option<&ActivityMap>,
        final_start: Option<Time>,
        now: Time,
        granularity: u64,
        min_count: u16,
        min_count_empty: u16,
    ) -> (action: WatchAction)
        ensures
            action@ == action_for(
                old(self).known_ws@,
                old(self).max_count,
                text_of(old(self).prev_focus_name),
                *focus_ws,
                text_of(named),
                focus_count,
                info_of(*tt_activity),
                known_to(activity_map),
                crate::subcommands::add::seconds_of(final_start),
                now@,
                granularity,
                min_count,
                min_count_empty,
            ),
            final(self).prev_tt_activity == old(self).prev_tt_activity,
            final(self).known_ws@ == if is_new_workspace(
                old(self).known_ws@,
                focus_ws.num,
                text_of(named),
            ) {
                old(self).known_ws@.push(focus_ws.num)
            } else {
                old(self).known_ws@
            },
            ({
                let title = title_of(focus_info(known_to(activity_map), text_of(named)));
                let settled = !is_new_workspace(old(self).known_ws@, focus_ws.num, text_of(named))
                    && has_settled(
                    focus_count,
                    old(self).max_count,
                    min_count,
                    min_count_empty,
                    title,
                );
                &&& final(self).max_count == if settled {
                    0
                } else {
                    old(self).max_count
                }
                &&& final(self).focus_counter@ == if settled {
                    Map::<Seq<char>, u16>::empty()
                } else {
                    old(self).focus_counter@
                }
                &&& text_of(final(self).prev_focus_name) == if settled && is_switch(
                    info_of(*tt_activity),
                    title,
                    text_of(old(self).prev_focus_name),
                ) {
                    Some(title)
                } else {
                    text_of(old(self).prev_focus_name)
                }
            }),
    {
        if !self.knows(focus_ws.num) && named.is_none() {
            self.known_ws.push(focus_ws.num);
            if let Some(activity) = tt_activity {
                let new_name = activity.as_workspace_title();
                if !is_start(new_name) && !is_break(new_name) {
                    return WatchAction::Rename {
                        name: focus_ws.name.clone(),
                        num: focus_ws.num,
                        title: String::from_str(new_name),
                    };
                }
            }
            return WatchAction::Nothing;
        }
        let least = if min_count < min_count_empty {
            min_count
        } else {
            min_count_empty
        };
        let name = match &named {
            Some(name) => name.as_str(),
            None => {
                let nothing = "";
                proof {
                    reveal_strlit("");
                    assert(nothing@ =~= Seq::<char>::empty());
                }
                nothing
            },
        };
        let focus_activity = TTInfo::from_string(activity_map, name);
        let title = focus_activity.as_workspace_title();
        if !(focus_count >= self.max_count && focus_count >= least) {
            return WatchAction::Nothing;
        }
        let min_required = if title.is_empty() {
            min_count_empty
        } else {
            min_count
        };
        if focus_count < min_required {
            return WatchAction::Nothing;
        }
        self.focus_counter = NameMap::new();
        self.max_count = 0;
        let activity = match tt_activity {
            Some(activity) => activity,
            None => {
                return WatchAction::Nothing;
            },
        };
        let logged_before = match &self.prev_focus_name {
            Some(previous) => same_text(previous.as_str(), title),
            None => false,
        };
        if is_break(activity.activity.as_str()) || same_text(activity.as_workspace_title(), title)
            || logged_before {
            return WatchAction::Nothing;
        }
        self.prev_focus_name = Some(String::from_str(title));
        assert((granularity % 86_400) * focus_count <= 86_400 * 0x1_0000) by (nonlinear_arith)
            requires
                0 <= granularity % 86_400 <= 86_400,
                0 <= focus_count <= 0x1_0000,
        ;
        let back: u64 = (granularity % 86_400) * (focus_count as u64);
        let got_focus = now.minus_seconds(back);
        proof {
            let (g, c) = (granularity as int, focus_count as int);
            vstd::arithmetic::div_mod::lemma_sub_mod_noop_right(now@, (g % 86_400) * c, 86_400);
            vstd::arithmetic::div_mod::lemma_mul_mod_noop_left(g, c, 86_400);
            vstd::arithmetic::div_mod::lemma_sub_mod_noop_right(now@, g * c, 86_400);
        }
        let earliest = match final_start {
            Some(start) => start,
            None => Time::from_hms(0, 0, 0),
        };
        let start = if got_focus.num_seconds_from_midnight()
            >= earliest.num_seconds_from_midnight() {
            got_focus
        } else {
            earliest
        };
        let really = is_start(activity.as_block_activity().as_str());
        let data = BlockData {
            start: if really {
                now
            } else {
                start
            },
            activity: focus_activity.as_block_activity(),
            tags: focus_activity.tags(),
            distribute: is_distributable(focus_activity.activity.as_str()),
        };
        WatchAction::Log(Block::from_data(data, really))
    }
}

} // verus!
