//! The lines of the activity log: what they mean and how they are written.

use crate::configfile::TTConfig;
use crate::error::{TTError, TTErrorKind};
use crate::subcommands::add::{known, ActivityMap};
use crate::subcommands::watch_i3::as_str;
use crate::text::{
    begins_with,
    is_word,
    join_words,
    joined,
    lemma_texts_push,
    lemma_words_of_joined,
    same_text,
    split_words,
    starts_with_char,
    texts,
    words,
};
use crate::time::Time;
use crate::utils::{
    format_time,
    lemma_time_text_reads_back,
    parse_time,
    prefix_of,
    resolve_prefix_for_number,
    time_reading,
    time_text,
    with_prefix,
};
use vstd::prelude::*;

verus! {

/// An activity that begins at some time and lasts until the next one begins.
#[derive(Debug, PartialEq, Eq)]
pub struct BlockData {
    pub start: Time,
    pub activity: String,
    pub tags: Vec<String>,
    /// Whether the time of this activity is to be spread over the others.
    pub distribute: bool,
}

/// One entry of the log.
#[derive(Debug, PartialEq, Eq)]
pub enum Block {
    /// An activity begins.
    NormalBlock(BlockData),
    /// The activity that is going on was really this one.
    ReallyBlock(BlockData),
    /// The activity that is going on really began at this time.
    TimeCorrection(Time),
    /// A remark, which means nothing.
    CommentBlock(()),
}

/// What a `BlockData` holds.
pub struct BlockDataView {
    pub start: int,
    pub activity: Seq<char>,
    pub tags: Seq<Seq<char>>,
    pub distribute: bool,
}

/// What a `Block` holds.
pub enum BlockView {
    Normal(BlockDataView),
    Really(BlockDataView),
    Correction(int),
    Comment,
}

impl View for BlockData {
    type V = BlockDataView;

    open spec fn view(&self) -> BlockDataView {
        BlockDataView {
            start: self.start@,
            activity: self.activity@,
            tags: texts(self.tags@),
            distribute: self.distribute,
        }
    }
}

impl View for Block {
    type V = BlockView;

    open spec fn view(&self) -> BlockView {
        match *self {
            Block::NormalBlock(data) => BlockView::Normal(data@),
            Block::ReallyBlock(data) => BlockView::Really(data@),
            Block::TimeCorrection(time) => BlockView::Correction(time@),
            Block::CommentBlock(_) => BlockView::Comment,
        }
    }
}

/// Whether the time of an activity of this name is spread over the other
/// activities of the day: the name begins with an underscore.
pub open spec fn distributable_name(activity: Seq<char>) -> bool {
    begins_with(activity, '_')
}

/// Whether an activity of this name is a break or the end of the day.
pub open spec fn break_name(activity: Seq<char>) -> bool {
    activity == "break"@ || activity == "end"@
}

/// Whether an activity of this name is the start of something yet unknown.
pub open spec fn start_name(activity: Seq<char>) -> bool {
    activity == "start"@ || activity == "_start"@
}

/// Returns whether the time for this activity will be distributed to the
/// other activities of the day.
pub fn is_distributable(activity: &str) -> (yes: bool)
    ensures
        yes == distributable_name(activity@),
{
    starts_with_char(activity, '_')
}

/// Returns whether this activity is a break or the end of the day.
pub fn is_break(activity: &str) -> (yes: bool)
    ensures
        yes == break_name(activity@),
{
    same_text(activity, "break") || same_text(activity, "end")
}

/// Returns whether this activity is the start of something yet unknown.
pub fn is_start(activity: &str) -> (yes: bool)
    ensures
        yes == start_name(activity@),
{
    same_text(activity, "start") || same_text(activity, "_start")
}

/// The activity that a run of words names: the first word is the activity,
/// the others are its tags.
pub open spec fn named(start: int, words: Seq<Seq<char>>, prefix: Option<Seq<char>>) -> BlockDataView {
    BlockDataView {
        start,
        activity: with_prefix(words[0], prefix),
        tags: words.skip(1),
        distribute: distributable_name(words[0]),
    }
}

/// What the words of a line mean, or the complaint about them.
pub open spec fn block_of_words(words: Seq<Seq<char>>, prefix: Option<Seq<char>>) -> Result<
    BlockView,
    Seq<char>,
> {
    if words.len() == 0 || begins_with(words[0], '#') {
        Ok(BlockView::Comment)
    } else {
        match time_reading(words[0]) {
            None => Err("cannot parse start time"@),
            Some(stamp) => {
                if words.len() < 2 {
                    Err("Line does not contain at least 2 words"@)
                } else if begins_with(words[1], '#') {
                    Ok(BlockView::Comment)
                } else if words[1] == "really"@ {
                    if words.len() < 3 {
                        Err("really block does not contain an activity"@)
                    } else {
                        match time_reading(words[2]) {
                            Some(time) => {
                                if words.len() > 3 {
                                    Err(
                                        "time correction cannot have further data, i.e. use only <time> really <time>"@,
                                    )
                                } else {
                                    Ok(BlockView::Correction(time))
                                }
                            },
                            None => Ok(BlockView::Really(named(stamp, words.skip(2), prefix))),
                        }
                    }
                } else {
                    match time_reading(words[1]) {
                        Some(time) => {
                            if words.len() < 3 {
                                Err("really block does not contain an activity"@)
                            } else {
                                Ok(BlockView::Normal(named(time, words.skip(2), prefix)))
                            }
                        },
                        None => Ok(BlockView::Normal(named(stamp, words.skip(1), prefix))),
                    }
                }
            },
        }
    }
}

/// What a line of the log means, or the complaint about it.
pub open spec fn block_of_line(line: Seq<char>, prefix: Option<Seq<char>>) -> Result<
    BlockView,
    Seq<char>,
> {
    block_of_words(words(line), prefix)
}

/// Whether `error` is the complaint `message` about `line` and nothing more.
pub open spec fn complains(error: TTError, message: Seq<char>, line: Seq<char>) -> bool {
    &&& error.context@.len() == 0
    &&& error.kind matches TTErrorKind::ParseError(m, l)
    &&& m@ == message
    &&& l@ == line
}

/// The words that a block is written with, after the time at which it was
/// logged: the start, if it is not that time, the activity and the tags.
pub open spec fn words_of_data(data: BlockDataView, stamp: int) -> Seq<Seq<char>> {
    let start = if data.start != stamp {
        seq![time_text(data.start)]
    } else {
        seq![]
    };
    start + seq![data.activity] + data.tags
}

/// The words of the line for a block that was logged at `stamp`.
pub open spec fn words_of_block(block: BlockView, stamp: int) -> Seq<Seq<char>> {
    match block {
        BlockView::Normal(data) => seq![time_text(stamp)] + words_of_data(data, stamp),
        BlockView::Really(data) => seq![time_text(stamp), "really"@] + words_of_data(data, stamp),
        BlockView::Correction(time) => seq![time_text(stamp), "really"@, time_text(time)],
        BlockView::Comment => seq![],
    }
}

/// The line for a block that was logged at `stamp`: its words with one
/// blank between each two.
pub open spec fn line_of_block(block: BlockView, stamp: int) -> Seq<char> {
    joined(words_of_block(block, stamp), " "@)
}

/// Copies the strings of `source` from place `from` on.
fn copy_from(source: &Vec<String>, from: usize) -> (copy: Vec<String>)
    requires
        from <= source.len(),
    ensures
        texts(copy@) == texts(source@).skip(from as int),
{
    let mut copy: Vec<String> = Vec::new();
    let mut i: usize = from;
    while i < source.len()
        invariant
            from <= i <= source.len(),
            texts(copy@) == texts(source@).subrange(from as int, i as int),
        decreases source.len() - i,
    {
        let word = source[i].clone();
        proof {
            lemma_texts_push(copy@, word);
            assert(texts(source@).subrange(from as int, i as int).push(word@) =~= texts(
                source@,
            ).subrange(from as int, i + 1));
        }
        copy.push(word);
        i += 1;
    }
    proof {
        assert(texts(source@).subrange(from as int, source.len() as int) =~= texts(source@).skip(
            from as int,
        ));
    }
    copy
}

/// The activity that the words from place `from` on name.
fn data_from(start: Time, words: &Vec<String>, from: usize, config: &TTConfig) -> (data: BlockData)
    requires
        from < words.len(),
    ensures
        data@ == named(start@, texts(words@).skip(from as int), prefix_of(*config)),
{
    let activity = resolve_prefix_for_number(words[from].as_str(), config);
    let tags = copy_from(words, from + 1);
    let distribute = is_distributable(words[from].as_str());
    proof {
        assert(texts(words@).skip(from as int).skip(1) =~= texts(words@).skip(from + 1));
    }
    BlockData { start, activity, tags, distribute }
}

/// The complaint `message` about `line`.
fn complaint(message: &'static str, line: String) -> (error: TTError)
    ensures
        complains(error, message@, line@),
{
    TTError::new(TTErrorKind::ParseError(message, line))
}

impl Block {
    /// Parses a log line into a block.
    ///
    /// Activities that are bare numbers get the prefix of `config`.
    pub fn from_line(line: String, config: &TTConfig) -> (parsed: Result<Block, TTError>)
        ensures
            match block_of_line(line@, prefix_of(*config)) {
                Ok(block) => parsed matches Ok(b) && b@ == block,
                Err(message) => parsed matches Err(e) && complains(e, message, line@),
            },
    {
        let words = split_words(line.as_str());
        let n = words.len();
        if n == 0 || starts_with_char(words[0].as_str(), '#') {
            return Ok(Block::CommentBlock(()));
        }
        let stamp = match parse_time(words[0].as_str()) {
            Ok(time) => time,
            Err(_) => {
                return Err(complaint("cannot parse start time", line));
            },
        };
        if n < 2 {
            return Err(complaint("Line does not contain at least 2 words", line));
        }
        if starts_with_char(words[1].as_str(), '#') {
            return Ok(Block::CommentBlock(()));
        }
        if same_text(words[1].as_str(), "really") {
            if n < 3 {
                return Err(complaint("really block does not contain an activity", line));
            }
            match parse_time(words[2].as_str()) {
                Ok(time) => {
                    if n > 3 {
                        Err(
                            complaint(
                                "time correction cannot have further data, i.e. use only <time> really <time>",
                                line,
                            ),
                        )
                    } else {
                        Ok(Block::TimeCorrection(time))
                    }
                },
                Err(_) => Ok(Block::ReallyBlock(data_from(stamp, &words, 2, config))),
            }
        } else {
            match parse_time(words[1].as_str()) {
                Ok(time) => {
                    if n < 3 {
                        Err(complaint("really block does not contain an activity", line))
                    } else {
                        Ok(Block::NormalBlock(data_from(time, &words, 2, config)))
                    }
                },
                Err(_) => Ok(Block::NormalBlock(data_from(stamp, &words, 1, config))),
            }
        }
    }

    /// The block for `data`: a correction of the current activity if
    /// `really`, a new activity otherwise.
    pub fn from_data(data: BlockData, really: bool) -> (block: Block)
        ensures
            block == if really {
                Block::ReallyBlock(data)
            } else {
                Block::NormalBlock(data)
            },
    {
        if really {
            Block::ReallyBlock(data)
        } else {
            Block::NormalBlock(data)
        }
    }

    /// Turns the block into a log line, without a line end, for an entry
    /// that is logged at `timestamp`.
    pub fn to_string(&self, timestamp: &Time) -> (line: String)
        ensures
            line@ == line_of_block(self@, timestamp@),
    {
        let mut words: Vec<String> = Vec::new();
        match self {
            Block::NormalBlock(data) => {
                words.push(format_time(timestamp));
                Self::push_data(&mut words, data, timestamp);
            },
            Block::ReallyBlock(data) => {
                words.push(format_time(timestamp));
                words.push(String::from_str("really"));
                Self::push_data(&mut words, data, timestamp);
            },
            Block::TimeCorrection(time) => {
                words.push(format_time(timestamp));
                words.push(String::from_str("really"));
                words.push(format_time(time));
            },
            Block::CommentBlock(_) => {},
        }
        proof {
            assert(texts(words@) =~= words_of_block(self@, timestamp@));
        }
        join_words(&words, " ")
    }

    /// Appends the words for `data` to `words`.
    fn push_data(words: &mut Vec<String>, data: &BlockData, timestamp: &Time)
        ensures
            texts(final(words)@) == texts(old(words)@) + words_of_data(data@, timestamp@),
    {
        if data.start.num_seconds_from_midnight() != timestamp.num_seconds_from_midnight() {
            words.push(format_time(&data.start));
        }
        words.push(data.activity.clone());
        let ghost before = texts(words@);
        let mut i: usize = 0;
        while i < data.tags.len()
            invariant
                i <= data.tags.len(),
                texts(words@) == before + texts(data.tags@).take(i as int),
            decreases data.tags.len() - i,
        {
            let tag = data.tags[i].clone();
            proof {
                lemma_texts_push(words@, tag);
                assert((before + texts(data.tags@).take(i as int)).push(tag@) =~= before + texts(
                    data.tags@,
                ).take(i + 1));
            }
            words.push(tag);
            i += 1;
        }
        proof {
            assert(texts(data.tags@).take(data.tags.len() as int) =~= texts(data.tags@));
            assert(texts(words@) =~= texts(old(words)@) + words_of_data(data@, timestamp@));
        }
    }
}

/// Whether the line of an activity says all there is to it: its start is
/// a full minute of the day, its name and its tags are words, the name is
/// not read as a time and gets no prefix, and the activity is to be spread
/// over the others just if its name says so.
pub open spec fn is_writable(data: BlockDataView, prefix: Option<Seq<char>>) -> bool {
    &&& 0 <= data.start < 86_400
    &&& data.start % 60 == 0
    &&& is_word(data.activity)
    &&& forall|i: int| 0 <= i < data.tags.len() ==> is_word(#[trigger] data.tags[i])
    &&& time_reading(data.activity) is None
    &&& with_prefix(data.activity, prefix) == data.activity
    &&& data.distribute == distributable_name(data.activity)
}

/// Whether a block can be told from its line: it is an activity whose line
/// says all there is to it; and if it is a new activity, then its name
/// neither begins a remark nor is the word `really`.
pub open spec fn is_told_by_line(block: BlockView, prefix: Option<Seq<char>>) -> bool {
    match block {
        BlockView::Normal(data) => {
            &&& is_writable(data, prefix)
            &&& !begins_with(data.activity, '#')
            &&& data.activity != "really"@
        },
        BlockView::Really(data) => is_writable(data, prefix),
        _ => false,
    }
}

/// When the activity of a block starts.
pub open spec fn start_of(block: BlockView) -> int {
    match block {
        BlockView::Normal(data) => data.start,
        BlockView::Really(data) => data.start,
        BlockView::Correction(time) => time,
        BlockView::Comment => 0,
    }
}

/// The word `really` is a word, and begins no remark.
proof fn lemma_really_is_a_word()
    ensures
        is_word("really"@),
        !begins_with("really"@, '#'),
{
    reveal_strlit("really");
}

/// A blank is one character of white space.
proof fn lemma_blank()
    ensures
        " "@ == seq![' '],
{
    reveal_strlit(" ");
    assert(" "@ =~= seq![' ']);
}

/// The words of the line of a new activity are read as that activity.
proof fn lemma_normal_words_read_back(data: BlockDataView, prefix: Option<Seq<char>>)
    requires
        is_told_by_line(BlockView::Normal(data), prefix),
    ensures
        block_of_words(words_of_block(BlockView::Normal(data), data.start), prefix) == Ok::<
            BlockView,
            Seq<char>,
        >(BlockView::Normal(data)),
        forall|i: int|
            0 <= i < words_of_block(BlockView::Normal(data), data.start).len() ==> is_word(
                #[trigger] words_of_block(BlockView::Normal(data), data.start)[i],
            ),
{
    let stamp = data.start;
    let list = words_of_block(BlockView::Normal(data), stamp);
    lemma_time_text_reads_back(stamp);
    assert(list =~= seq![time_text(stamp), data.activity] + data.tags);
    assert(list[0] == time_text(stamp));
    assert(list[1] == data.activity);
    assert(!begins_with(list[0], '#'));
    assert(time_reading(list[0]) == Some(stamp));
    assert forall|i: int| 0 <= i < list.len() implies is_word(#[trigger] list[i]) by {
        if i >= 2 {
            assert(list[i] == data.tags[i - 2]);
        }
    }
    assert(list.skip(1)[0] == data.activity);
    assert(list.skip(1).skip(1) =~= data.tags);
    assert(named(stamp, list.skip(1), prefix) == data);
}

/// The words of the line of a corrected activity are read as that
/// activity.
proof fn lemma_really_words_read_back(data: BlockDataView, prefix: Option<Seq<char>>)
    requires
        is_told_by_line(BlockView::Really(data), prefix),
    ensures
        block_of_words(words_of_block(BlockView::Really(data), data.start), prefix) == Ok::<
            BlockView,
            Seq<char>,
        >(BlockView::Really(data)),
        forall|i: int|
            0 <= i < words_of_block(BlockView::Really(data), data.start).len() ==> is_word(
                #[trigger] words_of_block(BlockView::Really(data), data.start)[i],
            ),
{
    let stamp = data.start;
    let list = words_of_block(BlockView::Really(data), stamp);
    lemma_time_text_reads_back(stamp);
    lemma_really_is_a_word();
    assert(list =~= seq![time_text(stamp), "really"@, data.activity] + data.tags);
    assert(list[0] == time_text(stamp));
    assert(list[1] == "really"@);
    assert(list[2] == data.activity);
    assert(!begins_with(list[0], '#'));
    assert(time_reading(list[0]) == Some(stamp));
    assert forall|i: int| 0 <= i < list.len() implies is_word(#[trigger] list[i]) by {
        if i >= 3 {
            assert(list[i] == data.tags[i - 3]);
        }
    }
    assert(list.skip(2)[0] == data.activity);
    assert(list.skip(2).skip(1) =~= data.tags);
    assert(named(stamp, list.skip(2), prefix) == data);
}

/// Reading is the inverse of writing: the line of an activity that was
/// logged when it started, if the block can be told from its line at all,
/// is read as that block again.
pub proof fn lemma_round_trip(block: BlockView, prefix: Option<Seq<char>>)
    requires
        is_told_by_line(block, prefix),
    ensures
        block_of_line(line_of_block(block, start_of(block)), prefix) == Ok::<BlockView, Seq<char>>(
            block,
        ),
{
    let list = words_of_block(block, start_of(block));
    lemma_blank();
    match block {
        BlockView::Normal(data) => {
            lemma_normal_words_read_back(data, prefix);
        },
        BlockView::Really(data) => {
            lemma_really_words_read_back(data, prefix);
        },
        _ => {},
    }
    lemma_words_of_joined(list);
}

/// An activity as a workspace of the window manager shows it.
#[derive(Debug, PartialEq, Eq)]
pub struct TTInfo {
    pub activity: String,
    pub shortname: Option<String>,
}

/// What a `TTInfo` holds.
pub struct TTInfoView {
    pub activity: Seq<char>,
    pub shortname: Option<Seq<char>>,
}

impl View for TTInfo {
    type V = TTInfoView;

    open spec fn view(&self) -> TTInfoView {
        TTInfoView {
            activity: self.activity@,
            shortname: match self.shortname {
                Some(s) => Some(s@),
                None => None,
            },
        }
    }
}

/// The activity that goes by `name`: the start of something unknown if the
/// name is empty or says so; what is known under the name, with the
/// shortname that the activity was first given or, where the name is a
/// shortname itself, with the name; and otherwise the name as it is.
pub open spec fn info_for(
    activities: Option<Map<Seq<char>, (Seq<char>, Seq<Seq<char>>)>>,
    name: Seq<char>,
) -> TTInfoView {
    if start_name(name) || name.len() == 0 {
        TTInfoView { activity: "start"@, shortname: None }
    } else if activities is Some && activities->0.contains_key(name) {
        let (activity, tags) = activities->0[name];
        if activity == name {
            TTInfoView {
                activity,
                shortname: if tags.len() > 0 {
                    Some(tags[0])
                } else {
                    None
                },
            }
        } else {
            TTInfoView { activity, shortname: Some(name) }
        }
    } else {
        TTInfoView { activity: name, shortname: None }
    }
}

/// What a list of known activities that may be missing holds.
pub open spec fn known_to(activity_map: Option<&ActivityMap>) -> Option<
    Map<Seq<char>, (Seq<char>, Seq<Seq<char>>)>,
> {
    match activity_map {
        Some(map) => Some(known(*map)),
        None => None,
    }
}

/// The title of a workspace for an activity: its shortname, or else its
/// name; but nothing for the start of something unknown.
pub open spec fn title_of(info: TTInfoView) -> Seq<char> {
    let title = match info.shortname {
        Some(s) => s,
        None => info.activity,
    };
    if start_name(title) {
        Seq::empty()
    } else {
        title
    }
}

/// How an activity is asked for so that it is logged whether it is known
/// or not: with a `+` in front, unless it has a shortname or is no
/// ordinary work.
pub open spec fn asked_as(info: TTInfoView) -> Seq<char> {
    if info.shortname is None && !start_name(info.activity) && !break_name(info.activity)
        && !distributable_name(info.activity) {
        "+"@ + info.activity
    } else {
        info.activity
    }
}

/// The tags to log with an activity: its shortname after a `=`, if it has
/// one.
pub open spec fn tags_of(info: TTInfoView) -> Seq<Seq<char>> {
    match info.shortname {
        Some(s) => seq!["="@ + s],
        None => seq![],
    }
}

impl TTInfo {
    /// The activity that goes by `name` in the list of known activities,
    /// if there is such a list.
    pub fn from_string(activity_map: Option<&ActivityMap>, name: &str) -> (info: TTInfo)
        ensures
            info@ == info_for(known_to(activity_map), name@),
    {
        if is_start(name) || name.is_empty() {
            return TTInfo { activity: String::from_str("start"), shortname: None };
        }
        let entry = match activity_map {
            Some(map) => map.get(name),
            None => None,
        };
        match entry {
            Some(found) => {
                proof {
                    assert(known(*activity_map->0)[name@] == (found.0@, texts(found.1@)));
                }
                if same_text(found.0.as_str(), name) {
                    let shortname = if found.1.len() > 0 {
                        Some(found.1[0].clone())
                    } else {
                        None
                    };
                    TTInfo { activity: found.0.clone(), shortname }
                } else {
                    TTInfo { activity: found.0.clone(), shortname: Some(String::from_str(name)) }
                }
            },
            None => TTInfo { activity: String::from_str(name), shortname: None },
        }
    }

    /// As the title of a workspace, the shortname is used if there is one.
    pub fn as_workspace_title(&self) -> (title: &str)
        ensures
            title@ == title_of(self@),
    {
        let title = match as_str(&self.shortname) {
            Some(s) => s,
            None => self.activity.as_str(),
        };
        if is_start(title) {
            let nothing = "";
            proof {
                reveal_strlit("");
                assert(nothing@ =~= Seq::<char>::empty());
            }
            nothing
        } else {
            title
        }
    }

    /// As the activity of a block to add to the log.
    pub fn as_block_activity(&self) -> (activity: String)
        ensures
            activity@ == asked_as(self@),
    {
        if self.shortname.is_none() && !is_start(self.activity.as_str()) && !is_break(
            self.activity.as_str(),
        ) && !is_distributable(self.activity.as_str()) {
            let mut activity = String::from_str("+");
            activity.append(self.activity.as_str());
            activity
        } else {
            self.activity.clone()
        }
    }

    /// The tags for a block whose activity is `as_block_activity`.
    pub fn tags(&self) -> (tags: Vec<String>)
        ensures
            texts(tags@) == tags_of(self@),
    {
        let mut tags: Vec<String> = Vec::new();
        match &self.shortname {
            None => {
                proof {
                    assert(texts(tags@) =~= tags_of(self@));
                }
            },
            Some(s) => {
                let mut tag = String::from_str("=");
                tag.append(s.as_str());
                tags.push(tag);
                proof {
                    assert(texts(tags@) =~= tags_of(self@));
                }
            },
        }
        tags
    }
}

/// A name with a prefix that does not begin with an underscore says that
/// its activity is there to be spread just if the name without the prefix
/// does.
pub proof fn lemma_prefix_keeps_the_kind(word: Seq<char>, prefix: Option<Seq<char>>)
    requires
        !(prefix matches Some(p) && begins_with(p, '_')),
    ensures
        distributable_name(with_prefix(word, prefix)) == distributable_name(word),
{
    match prefix {
        Some(p) => {
            if word.len() > 0 && crate::utils::is_digit(word[0]) {
                let whole = p + seq!['-'] + word;
                if p.len() > 0 {
                    assert(whole[0] == p[0]);
                } else {
                    assert(whole[0] == '-');
                }
            }
        },
        None => {},
    }
}

/// Where the prefix does not begin with an underscore, the activity of
/// every line is marked to be spread just if its name says so.
pub proof fn lemma_line_marks_by_name(line: Seq<char>, prefix: Option<Seq<char>>)
    requires
        !(prefix matches Some(p) && begins_with(p, '_')),
    ensures
        match block_of_line(line, prefix) {
            Ok(BlockView::Normal(data)) => data.distribute == distributable_name(data.activity),
            Ok(BlockView::Really(data)) => data.distribute == distributable_name(data.activity),
            _ => true,
        },
{
    let list = words(line);
    if list.len() >= 2 {
        lemma_prefix_keeps_the_kind(list.skip(1)[0], prefix);
    }
    if list.len() >= 3 {
        lemma_prefix_keeps_the_kind(list.skip(2)[0], prefix);
    }
}

} // verus!
