//! Adding an entry to the log: from what was asked for to the block that
//! is written, with the help of the list of known activities.

use crate::collector::{first_shortname, text_of};
use crate::configfile::TTConfig;
use crate::error::{TTError, TTErrorKind};
use crate::log_parser::{
    break_name,
    distributable_name,
    is_break,
    is_distributable,
    is_start,
    start_name,
    Block,
    BlockData,
    BlockDataView,
    BlockView,
};
use crate::name_map::NameMap;
use crate::text::{
    begins_with,
    join_words,
    joined,
    lemma_texts_push,
    same_text,
    split_words,
    starts_with_char,
    text_from,
    texts,
    words,
};
use crate::time::Time;
use crate::utils::{prefix_of, resolve_prefix_for_number, with_prefix};
use vstd::prelude::*;

verus! {

/// What was asked for on the command line.
#[derive(Debug)]
pub struct AddOpt {
    /// Correct the activity or the start of the previous entry.
    pub really: bool,
    /// Use this time instead of the current time.
    pub timestamp: Option<Time>,
    /// The activity started so many minutes before.
    pub ago: i64,
    /// Which activity; it starts with `+` if it is not a known one.
    pub activity: Option<String>,
    /// Any additional tags; one that starts with `=` gives a shortname.
    pub tags: Vec<String>,
}

/// The known activities: under each shortname the activity it stands for
/// and the tags that go with it, and under each activity the activity
/// itself and the shortname that it was first given, if any.
pub type ActivityMap = NameMap<(String, Vec<String>)>;

/// What a list of known activities holds.
pub open spec fn known(map: ActivityMap) -> Map<Seq<char>, (Seq<char>, Seq<Seq<char>>)> {
    map@.map_values(|entry: (String, Vec<String>)| (entry.0@, texts(entry.1@)))
}

/// The known activities after one more line of their list, which has the
/// words `line`, at least one: a shortname, the activity that it stands
/// for, and tags; or an activity alone.
pub open spec fn with_line(
    before: Map<Seq<char>, (Seq<char>, Seq<Seq<char>>)>,
    line: Seq<Seq<char>>,
) -> Map<Seq<char>, (Seq<char>, Seq<Seq<char>>)> {
    if line.len() == 1 {
        before.insert(line[0], (line[0], seq![]))
    } else {
        let named = before.insert(line[0], (line[1], line.skip(2)));
        let backlink = if named.contains_key(line[1]) {
            seq![]
        } else {
            seq![line[0]]
        };
        named.insert(line[1], (line[1], backlink))
    }
}

/// The known activities after the lines `lines` of their list, or nothing
/// if one of the lines is without words.
pub open spec fn with_lines(
    before: Map<Seq<char>, (Seq<char>, Seq<Seq<char>>)>,
    lines: Seq<Seq<char>>,
) -> Option<Map<Seq<char>, (Seq<char>, Seq<Seq<char>>)>>
    decreases lines.len(),
{
    if lines.len() == 0 {
        Some(before)
    } else if words(lines[0]).len() == 0 {
        None
    } else {
        with_lines(with_line(before, words(lines[0])), lines.drop_first())
    }
}

/// Whether `error` says that the list of activities is malformed.
pub open spec fn is_config_error(error: TTError) -> bool {
    &&& error.context@.len() == 0
    &&& error.kind matches TTErrorKind::ActivityConfigError(message)
    &&& message@
        == "Config activity lines wrong, correct format is <left> <right> or <activity>"@
}

/// Copies the strings of `source` from place `from` on.
fn tail(source: &Vec<String>, from: usize) -> (copy: Vec<String>)
    requires
        from <= source.len(),
    ensures
        texts(copy@) == texts(source@).skip(from as int),
{
    let mut copy: Vec<String> = Vec::new();
    let mut i: usize = from;
    while i < source.len()
        invariant
            from <= i <= source.len(),
            texts(copy@) == texts(source@).subrange(from as int, i as int),
        decreases source.len() - i,
    {
        let word = source[i].clone();
        proof {
            lemma_texts_push(copy@, word);
            assert(texts(source@).subrange(from as int, i as int).push(word@) =~= texts(
                source@,
            ).subrange(from as int, i + 1));
        }
        copy.push(word);
        i += 1;
    }
    proof {
        assert(texts(source@).subrange(from as int, source.len() as int) =~= texts(source@).skip(
            from as int,
        ));
    }
    copy
}

/// Reads the list of known activities from its lines.
pub fn read_activities(lines: &Vec<String>) -> (activities: Result<ActivityMap, TTError>)
    ensures
        match with_lines(Map::empty(), texts(lines@)) {
            Some(map) => activities matches Ok(a) && known(a) == map,
            None => activities matches Err(e) && is_config_error(e),
        },
{
    let mut activity_map: ActivityMap = NameMap::new();
    let ghost all = texts(lines@);
    let mut i: usize = 0;
    proof {
        assert(all.skip(0) =~= all);
        assert(known(activity_map) =~= Map::empty());
    }
    while i < lines.len()
        invariant
            i <= lines.len(),
            all == texts(lines@),
            with_lines(known(activity_map), all.skip(i as int)) == with_lines(Map::empty(), all),
        decreases lines.len() - i,
    {
        proof {
            assert(all.skip(i as int).drop_first() =~= all.skip(i + 1));
            assert(all.skip(i as int)[0] == lines@[i as int]@);
        }
        let ghost before = known(activity_map);
        let line = split_words(lines[i].as_str());
        if line.len() == 0 {
            return Err(
                TTError::new(
                    TTErrorKind::ActivityConfigError(
                        "Config activity lines wrong, correct format is <left> <right> or <activity>",
                    ),
                ),
            );
        }
        if line.len() == 1 {
            let entry = (line[0].clone(), Vec::new());
            proof {
                assert(texts(entry.1@) =~= Seq::<Seq<char>>::empty());
            }
            activity_map.insert(line[0].clone(), entry);
            proof {
                assert(known(activity_map) =~= with_line(before, texts(line@)));
            }
        } else {
            let entry = (line[1].clone(), tail(&line, 2));
            activity_map.insert(line[0].clone(), entry);
            let ghost named = known(activity_map);
            proof {
                assert(named =~= before.insert(texts(line@)[0], (texts(line@)[1], texts(line@).skip(2))));
            }
            let mut backlink: Vec<String> = Vec::new();
            if !activity_map.contains_key(line[1].as_str()) {
                backlink.push(line[0].clone());
            }
            proof {
                if named.contains_key(line@[1]@) {
                    assert(texts(backlink@) =~= Seq::<Seq<char>>::empty());
                } else {
                    assert(texts(backlink@) =~= seq![line@[0]@]);
                }
            }
            activity_map.insert(line[1].clone(), (line[1].clone(), backlink));
            proof {
                assert(known(activity_map) =~= with_line(before, texts(line@)));
            }
        }
        i += 1;
    }
    Ok(activity_map)
}

/// Whether a tag gives a shortname: it begins with `=`.
pub fn is_shortname(s: &String) -> (yes: bool)
    ensures
        yes == begins_with(s@, '='),
{
    starts_with_char(s.as_str(), '=')
}

/// The shortname that a tag gives, if it gives one: what follows its `=`.
pub fn shortname_from_tag(s: &String) -> (shortname: Option<String>)
    ensures
        text_of(shortname) == if begins_with(s@, '=') {
            Some(s@.skip(1))
        } else {
            None
        },
{
    if is_shortname(s) {
        Some(text_from(s.as_str(), 1))
    } else {
        None
    }
}

/// The time that a time which may be missing stands for.
pub open spec fn seconds_of(time: Option<Time>) -> Option<int> {
    match time {
        Some(t) => Some(t@),
        None => None,
    }
}

/// The time `ago` minutes before `time` on the clock face.
pub open spec fn minutes_before(time: int, ago: int) -> int {
    (time - 60 * ago) % 86_400
}

/// What is to be logged at `logtime` for what was asked for, or the
/// reason why nothing can be logged.
pub open spec fn block_asked_for(
    really: bool,
    timestamp: Option<int>,
    ago: int,
    activity: Option<Seq<char>>,
    tags: Seq<Seq<char>>,
    logtime: int,
) -> Result<BlockView, Seq<char>> {
    if really {
        match (activity, timestamp) {
            (None, Some(time)) if tags.len() == 0 => Ok(
                BlockView::Correction(minutes_before(time, ago)),
            ),
            (None, None) if ago > 0 && tags.len() == 0 => Ok(
                BlockView::Correction(minutes_before(logtime, ago)),
            ),
            (Some(name), None) if ago == 0 => Ok(
                BlockView::Really(
                    BlockDataView {
                        start: logtime,
                        activity: name,
                        tags,
                        distribute: distributable_name(name),
                    },
                ),
            ),
            _ => Err(
                "really either needs an activity or a manual timestamp (which includes using --before)"@,
            ),
        }
    } else {
        match activity {
            Some(name) => Ok(
                BlockView::Normal(
                    BlockDataView {
                        start: minutes_before(
                            match timestamp {
                                Some(time) => time,
                                None => logtime,
                            },
                            ago,
                        ),
                        activity: name,
                        tags,
                        distribute: distributable_name(name),
                    },
                ),
            ),
            None => Err("please provide an activity."@),
        }
    }
}

/// Whether `error` is the complaint `message` about how the command was
/// used, without any notes.
pub open spec fn is_usage_error(error: TTError, message: Seq<char>) -> bool {
    &&& error.context@.len() == 0
    &&& error.kind matches TTErrorKind::UsageError(m)
    &&& m@ == message
}

/// Converts what was asked for to the block that represents a log entry.
pub fn block_from_opt(opt: AddOpt, logtime: &Time) -> (block: Result<Block, TTError>)
    ensures
        match block_asked_for(
            opt.really,
            seconds_of(opt.timestamp),
            opt.ago as int,
            text_of(opt.activity),
            texts(opt.tags@),
            logtime@,
        ) {
            Ok(asked) => block matches Ok(b) && b@ == asked,
            Err(message) => block matches Err(e) && is_usage_error(e, message),
        },
{
    let AddOpt { really, timestamp, ago, activity, tags } = opt;
    if really {
        match (activity, timestamp) {
            (None, Some(time)) => {
                if tags.len() == 0 {
                    return Ok(Block::TimeCorrection(time.minus_minutes(ago)));
                }
            },
            (None, None) => {
                if ago > 0 && tags.len() == 0 {
                    return Ok(Block::TimeCorrection(logtime.minus_minutes(ago)));
                }
            },
            (Some(name), None) => {
                if ago == 0 {
                    let distribute = is_distributable(name.as_str());
                    return Ok(
                        Block::ReallyBlock(
                            BlockData { start: *logtime, activity: name, tags, distribute },
                        ),
                    );
                }
            },
            _ => {},
        }
        Err(
            TTError::new(
                TTErrorKind::UsageError(
                    "really either needs an activity or a manual timestamp (which includes using --before)",
                ),
            ),
        )
    } else {
        match activity {
            Some(name) => {
                let from = match timestamp {
                    Some(time) => time,
                    None => *logtime,
                };
                let distribute = is_distributable(name.as_str());
                Ok(
                    Block::NormalBlock(
                        BlockData { start: from.minus_minutes(ago), activity: name, tags, distribute },
                    ),
                )
            },
            None => Err(TTError::new(TTErrorKind::UsageError("please provide an activity."))),
        }
    }
}

/// The tags that give no shortname, in order.
pub open spec fn other_tags(tags: Seq<Seq<char>>) -> Seq<Seq<char>>
    decreases tags.len(),
{
    if tags.len() == 0 {
        seq![]
    } else if begins_with(tags.last(), '=') {
        other_tags(tags.drop_last())
    } else {
        other_tags(tags.drop_last()).push(tags.last())
    }
}

/// The line that makes `shortname` known for `activity` with the tags.
pub open spec fn shortcut_line(shortname: Seq<char>, activity: Seq<char>, tags: Seq<Seq<char>>) -> Seq<
    char,
> {
    let others = joined(other_tags(tags), " "@);
    shortname + " "@ + activity + if others.len() == 0 {
        others
    } else {
        " "@ + others
    }
}

/// The line to add to the list of known activities when an activity is
/// logged that was asked for with a `+`, if there is one: the activity is
/// ordinary work, one of its tags gives a shortname, and that shortname is
/// not known for this activity yet.
pub open spec fn new_shortcut(
    activity: Seq<char>,
    tags: Seq<Seq<char>>,
    known: Map<Seq<char>, (Seq<char>, Seq<Seq<char>>)>,
) -> Option<Seq<char>> {
    if distributable_name(activity) || break_name(activity) || start_name(activity) {
        None
    } else {
        match first_shortname(tags) {
            None => None,
            Some(tag) => {
                let shortname = tag.skip(1);
                if known.contains_key(shortname) && known[shortname].0 == activity {
                    None
                } else {
                    Some(shortcut_line(shortname, activity, tags))
                }
            },
        }
    }
}

/// How a text is written for the eyes of a programmer: what
/// `std::fmt::Debug` makes of a string.
pub uninterp spec fn debug_text(s: Seq<char>) -> Seq<char>;

/// What validation makes of an activity: the activity as it is logged and
/// the line to add to the list of known activities, if any; or the name
/// under which nothing is known.
pub open spec fn validated(
    data: BlockDataView,
    known: Map<Seq<char>, (Seq<char>, Seq<Seq<char>>)>,
    prefix: Option<Seq<char>>,
) -> Result<(BlockDataView, Option<Seq<char>>), Seq<char>> {
    if begins_with(data.activity, '+') {
        let activity = with_prefix(data.activity.skip(1), prefix);
        Ok(
            (
                BlockDataView { activity, distribute: distributable_name(activity), ..data },
                new_shortcut(activity, data.tags, known),
            ),
        )
    } else if !data.distribute && !break_name(data.activity) && !start_name(data.activity) {
        let name = with_prefix(data.activity, prefix);
        if known.contains_key(name) {
            let (found, found_tags) = known[name];
            let shortname = if name != found {
                seq!["="@ + name]
            } else {
                seq![]
            };
            Ok(
                (
                    BlockDataView {
                        start: data.start,
                        activity: found,
                        tags: shortname + data.tags + found_tags,
                        distribute: distributable_name(found),
                    },
                    None,
                ),
            )
        } else {
            Err(name)
        }
    } else {
        Ok((data, None))
    }
}

/// What validation makes of a block.
pub open spec fn validated_block(
    block: BlockView,
    known: Map<Seq<char>, (Seq<char>, Seq<Seq<char>>)>,
    prefix: Option<Seq<char>>,
) -> Result<(BlockView, Option<Seq<char>>), Seq<char>> {
    match block {
        BlockView::Normal(data) => match validated(data, known, prefix) {
            Ok((d, line)) => Ok((BlockView::Normal(d), line)),
            Err(name) => Err(name),
        },
        BlockView::Really(data) => match validated(data, known, prefix) {
            Ok((d, line)) => Ok((BlockView::Really(d), line)),
            Err(name) => Err(name),
        },
        _ => Ok((block, None)),
    }
}

/// Whether `error` says that an activity is not known, with the note
/// that the activity that is written as `written` was being validated.
pub open spec fn says_unknown(error: TTError, written: Seq<char>) -> bool {
    &&& error.kind matches TTErrorKind::UsageError(message)
    &&& message@ == "activity not known, you can add it using the prefix '+'"@
    &&& error.context@.len() == 1
    &&& error.context@[0]@ == "validating activity "@ + written
}

/// Whether `error` says that nothing is known under `name`.
pub open spec fn is_unknown_activity(error: TTError, name: Seq<char>) -> bool {
    says_unknown(error, debug_text(name))
}

/// The error for an activity that is not known, where `written` is how
/// its name is written for the eyes of a programmer.
pub fn unknown_activity(written: String) -> (error: TTError)
    ensures
        says_unknown(error, written@),
{
    let mut note = String::from_str("validating activity ");
    note.append(written.as_str());
    TTError::new(
        TTErrorKind::UsageError("activity not known, you can add it using the prefix '+'"),
    ).context(note)
}

/// `std::fmt::Debug` for a string, through `format!`.
#[verifier::external_body]
fn debug_string(s: &str) -> (text: String)
    ensures
        text@ == debug_text(s@),
{
    format!("{:?}", s)
}

/// The tags that give no shortname, in order.
fn tags_without_shortnames(tags: &Vec<String>) -> (others: Vec<String>)
    ensures
        texts(others@) == other_tags(texts(tags@)),
{
    let mut others: Vec<String> = Vec::new();
    let mut i: usize = 0;
    proof {
        assert(texts(tags@).take(0) =~= Seq::<Seq<char>>::empty());
        assert(texts(others@) =~= Seq::<Seq<char>>::empty());
    }
    while i < tags.len()
        invariant
            i <= tags.len(),
            texts(others@) == other_tags(texts(tags@).take(i as int)),
        decreases tags.len() - i,
    {
        proof {
            assert(texts(tags@).take(i + 1).drop_last() =~= texts(tags@).take(i as int));
            assert(texts(tags@).take(i + 1).last() == tags@[i as int]@);
        }
        if !is_shortname(&tags[i]) {
            let tag = tags[i].clone();
            proof {
                lemma_texts_push(others@, tag);
            }
            others.push(tag);
        }
        i += 1;
    }
    proof {
        assert(texts(tags@).take(tags.len() as int) =~= texts(tags@));
    }
    others
}

/// The first shortname that the tags give.
fn find_shortname(tags: &Vec<String>) -> (found: Option<String>)
    ensures
        text_of(found) == match first_shortname(texts(tags@)) {
            Some(tag) => Some(tag.skip(1)),
            None => None,
        },
{
    let mut i: usize = 0;
    proof {
        assert(texts(tags@).skip(0) =~= texts(tags@));
    }
    while i < tags.len()
        invariant
            i <= tags.len(),
            first_shortname(texts(tags@).skip(i as int)) == first_shortname(texts(tags@)),
        decreases tags.len() - i,
    {
        match shortname_from_tag(&tags[i]) {
            Some(shortname) => {
                return Some(shortname);
            },
            None => {},
        }
        proof {
            assert(texts(tags@).skip(i as int).drop_first() =~= texts(tags@).skip(i + 1));
        }
        i += 1;
    }
    None
}

/// The line to add to the list of known activities, if any.
fn shortcut_for(activity: &String, tags: &Vec<String>, activity_map: &ActivityMap) -> (line: Option<
    String,
>)
    ensures
        text_of(line) == new_shortcut(activity@, texts(tags@), known(*activity_map)),
{
    if is_distributable(activity.as_str()) || is_break(activity.as_str()) || is_start(
        activity.as_str(),
    ) {
        return None;
    }
    match find_shortname(tags) {
        None => None,
        Some(shortname) => {
            let is_already_defined = match activity_map.get(shortname.as_str()) {
                Some(entry) => same_text(entry.0.as_str(), activity.as_str()),
                None => false,
            };
            if is_already_defined {
                None
            } else {
                let others = join_words(&tags_without_shortnames(tags), " ");
                let mut line = shortname;
                line.append(" ");
                line.append(activity.as_str());
                if !others.as_str().is_empty() {
                    line.append(" ");
                    line.append(others.as_str());
                }
                proof {
                    assert(line@ =~= shortcut_line(
                        first_shortname(texts(tags@))->0.skip(1),
                        activity@,
                        texts(tags@),
                    ));
                }
                Some(line)
            }
        },
    }
}

/// Validates the activity of `data` and resolves shortnames.
fn validate_data(data: BlockData, activity_map: &ActivityMap, config: &TTConfig) -> (result: Result<
    (BlockData, Option<String>),
    TTError,
>)
    ensures
        match validated(data@, known(*activity_map), prefix_of(*config)) {
            Ok((d, line)) => result matches Ok(r) && r.0@ == d && text_of(r.1) == line,
            Err(name) => result matches Err(e) && is_unknown_activity(e, name),
        },
{
    let BlockData { start, activity, tags, distribute } = data;
    if starts_with_char(activity.as_str(), '+') {
        let bare = text_from(activity.as_str(), 1);
        let activity = resolve_prefix_for_number(bare.as_str(), config);
        let distribute = is_distributable(activity.as_str());
        let line = shortcut_for(&activity, &tags, activity_map);
        let valid = BlockData { start, activity, tags, distribute };
        proof {
            assert(valid@.tags == data@.tags);
        }
        Ok((valid, line))
    } else if !distribute && !is_break(activity.as_str()) && !is_start(activity.as_str()) {
        let name = resolve_prefix_for_number(activity.as_str(), config);
        match activity_map.get(name.as_str()) {
            Some(entry) => {
                let found = entry.0.clone();
                let mut all: Vec<String> = Vec::new();
                if !same_text(name.as_str(), found.as_str()) {
                    let mut shortname = String::from_str("=");
                    shortname.append(name.as_str());
                    all.push(shortname);
                }
                let ghost first = texts(all@);
                let mut i: usize = 0;
                while i < tags.len()
                    invariant
                        i <= tags.len(),
                        texts(all@) == first + texts(tags@).take(i as int),
                    decreases tags.len() - i,
                {
                    let tag = tags[i].clone();
                    proof {
                        lemma_texts_push(all@, tag);
                        assert((first + texts(tags@).take(i as int)).push(tag@) =~= first + texts(
                            tags@,
                        ).take(i + 1));
                    }
                    all.push(tag);
                    i += 1;
                }
                let ghost second = texts(all@);
                let mut j: usize = 0;
                while j < entry.1.len()
                    invariant
                        j <= entry.1.len(),
                        texts(all@) == second + texts(entry.1@).take(j as int),
                    decreases entry.1.len() - j,
                {
                    let tag = entry.1[j].clone();
                    proof {
                        lemma_texts_push(all@, tag);
                        assert((second + texts(entry.1@).take(j as int)).push(tag@) =~= second
                            + texts(entry.1@).take(j + 1));
                    }
                    all.push(tag);
                    j += 1;
                }
                proof {
                    assert(texts(tags@).take(tags.len() as int) =~= texts(tags@));
                    assert(texts(entry.1@).take(entry.1.len() as int) =~= texts(entry.1@));
                    assert(known(*activity_map)[name@] == (entry.0@, texts(entry.1@)));
                }
                let distribute = is_distributable(found.as_str());
                let valid = BlockData { start, activity: found, tags: all, distribute };
                proof {
                    let shortname = if name@ != entry.0@ {
                        seq!["="@ + name@]
                    } else {
                        seq![]
                    };
                    assert(first =~= shortname);
                    assert(valid@.tags =~= shortname + data@.tags + texts(entry.1@));
                }
                Ok((valid, None))
            },
            None => Err(unknown_activity(debug_string(name.as_str()))),
        }
    } else {
        let same = BlockData { start, activity, tags, distribute };
        proof {
            assert(same@ == data@);
        }
        Ok((same, None))
    }
}

/// Validates the activity of a block that was asked for and resolves
/// shortnames:
/// - a leading `+` asks to log the activity even if it is not known, and is
///   taken off;
/// - a bare number gets the prefix of `config`;
/// - a shortname is replaced by the activity it stands for, and the tags
///   that go with it are added;
/// - an ordinary activity that is not known is an error;
/// - where a tag gives a shortname to an activity logged with `+`, the line
///   to add to the list of known activities is returned.
///
/// The block is changed in place; on an error it is left as it was.
pub fn validate_activity(block: &mut Block, activity_map: &ActivityMap, config: &TTConfig) -> (line:
    Result<Option<String>, TTError>)
    ensures
        match validated_block(old(block)@, known(*activity_map), prefix_of(*config)) {
            Ok((b, new_line)) => line matches Ok(l) && final(block)@ == b && text_of(l)
                == new_line,
            Err(name) => line matches Err(e) && is_unknown_activity(e, name) && final(block)@
                == old(block)@,
        },
{
    let mut taken = Block::CommentBlock(());
    std::mem::swap(block, &mut taken);
    match taken {
        Block::NormalBlock(data) => {
            let copy = BlockData {
                start: data.start,
                activity: data.activity.clone(),
                tags: data.tags.clone(),
                distribute: data.distribute,
            };
            match validate_data(data, activity_map, config) {
                Ok((valid, line)) => {
                    *block = Block::NormalBlock(valid);
                    Ok(line)
                },
                Err(error) => {
                    *block = Block::NormalBlock(copy);
                    Err(error)
                },
            }
        },
        Block::ReallyBlock(data) => {
            let copy = BlockData {
                start: data.start,
                activity: data.activity.clone(),
                tags: data.tags.clone(),
                distribute: data.distribute,
            };
            match validate_data(data, activity_map, config) {
                Ok((valid, line)) => {
                    *block = Block::ReallyBlock(valid);
                    Ok(line)
                },
                Err(error) => {
                    *block = Block::ReallyBlock(copy);
                    Err(error)
                },
            }
        },
        other => {
            *block = other;
            Ok(None)
        },
    }
}

} // verus!
