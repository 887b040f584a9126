//! Resuming an earlier activity: which activities of the day one can go
//! back to, and the entry that goes back to one of them.

use crate::configfile::TTConfig;
use crate::error::TTError;
use crate::log_parser::{
    block_of_line,
    break_name,
    distributable_name,
    is_break,
    is_distributable,
    Block,
    BlockData,
    BlockDataView,
    BlockView,
};
use crate::text::{lemma_texts_push, same_text, starts_with_text, text_from, texts};
use crate::time::Time;
use crate::utils::{count_reading, decimal, parse_count, prefix_of, push_decimal};
use vstd::prelude::*;

verus! {

/// An activity to go back to: its name, its tags, and how many
/// activities back from the end of the log it was logged.
pub struct ResumeView {
    pub activity: Seq<char>,
    pub tags: Seq<Seq<char>>,
    pub back: nat,
}

/// What a list of activities to go back to holds.
pub open spec fn resume_views(stack: Seq<(String, Vec<String>, usize)>) -> Seq<ResumeView> {
    stack.map_values(
        |entry: (String, Vec<String>, usize)|
            ResumeView { activity: entry.0@, tags: texts(entry.1@), back: entry.2 as nat },
    )
}

/// The activities that the lines of a log begin or correct, in order, or
/// the complaint about the first line that cannot be read, with that line.
pub open spec fn activities_of(lines: Seq<Seq<char>>, prefix: Option<Seq<char>>) -> Result<
    Seq<BlockDataView>,
    (Seq<char>, Seq<char>),
>
    decreases lines.len(),
{
    if lines.len() == 0 {
        Ok(Seq::empty())
    } else {
        match activities_of(lines.drop_last(), prefix) {
            Err(complaint) => Err(complaint),
            Ok(before) => match block_of_line(lines.last(), prefix) {
                Err(message) => Err((message, lines.last())),
                Ok(BlockView::Normal(data)) => Ok(before.push(data)),
                Ok(BlockView::Really(data)) => Ok(before.push(data)),
                Ok(_) => Ok(before),
            },
        }
    }
}

/// Whether a tag says how far back an activity was resumed from.
pub open spec fn is_resume_tag(tag: Seq<char>) -> bool {
    "resume:"@.is_prefix_of(tag)
}

/// How many activities to go back from one with the tags `tags` to come to
/// the activity before it: the count that the first tag `resume:` gives,
/// 1 if that gives none, and 1 if there is no such tag.
pub open spec fn jump_of(tags: Seq<Seq<char>>) -> nat
    decreases tags.len(),
{
    if tags.len() == 0 {
        1
    } else if is_resume_tag(tags[0]) {
        match count_reading(tags[0].skip(7)) {
            Some(n) => n,
            None => 1,
        }
    } else {
        jump_of(tags.drop_first())
    }
}

/// The activities to go back to that are found from place `at` of the
/// activities of the log backwards, after `found`, when `current` is the
/// activity that was found last. A break is not an activity to go back
/// to, and an activity is not listed twice in a row. The way back follows
/// the `resume:` tags and ends at the beginning of the log, or where a tag
/// says to go back by nothing.
pub open spec fn walk_back(
    blocks: Seq<BlockDataView>,
    at: nat,
    current: Seq<char>,
    found: Seq<ResumeView>,
) -> Seq<ResumeView>
    decreases at,
{
    let block = blocks[at as int];
    let fresh = block.activity != current && !break_name(block.activity);
    let found = if fresh {
        found.push(
            ResumeView {
                activity: block.activity,
                tags: block.tags,
                back: (blocks.len() - at) as nat,
            },
        )
    } else {
        found
    };
    let current = if fresh {
        block.activity
    } else {
        current
    };
    let jump = jump_of(block.tags);
    if at < jump || jump == 0 {
        found
    } else {
        walk_back(blocks, (at - jump) as nat, current, found)
    }
}

/// The activities to go back to from the end of a log with the activities
/// `blocks`, the nearest first.
pub open spec fn resume_stack(blocks: Seq<BlockDataView>) -> Seq<ResumeView> {
    if blocks.len() <= 1 {
        Seq::empty()
    } else {
        walk_back(
            blocks,
            (blocks.len() - 1) as nat,
            blocks[blocks.len() - 1].activity,
            Seq::empty(),
        )
    }
}

/// What a list of activities holds.
pub open spec fn data_views(blocks: Seq<BlockData>) -> Seq<BlockDataView> {
    blocks.map_values(|data: BlockData| data@)
}

/// How many activities to go back from one with the tags `tags`.
fn jump_from(tags: &Vec<String>) -> (jump: usize)
    ensures
        jump == jump_of(texts(tags@)),
{
    let mut i: usize = 0;
    proof {
        assert(texts(tags@).skip(0) =~= texts(tags@));
    }
    while i < tags.len()
        invariant
            i <= tags.len(),
            jump_of(texts(tags@).skip(i as int)) == jump_of(texts(tags@)),
        decreases tags.len() - i,
    {
        if starts_with_text(tags[i].as_str(), "resume:") {
            let number = text_from(tags[i].as_str(), 7);
            proof {
                reveal_strlit("resume:");
                assert("resume:"@.len() == 7);
            }
            return match parse_count(number.as_str()) {
                Some(n) => n,
                None => 1,
            };
        }
        proof {
            assert(texts(tags@).skip(i as int).drop_first() =~= texts(tags@).skip(i + 1));
        }
        i += 1;
    }
    1
}

/// Copies a list of strings.
fn copy_of(source: &Vec<String>) -> (copy: Vec<String>)
    ensures
        texts(copy@) == texts(source@),
{
    let mut copy: Vec<String> = Vec::new();
    let mut i: usize = 0;
    while i < source.len()
        invariant
            i <= source.len(),
            texts(copy@) == texts(source@).take(i as int),
        decreases source.len() - i,
    {
        let word = source[i].clone();
        proof {
            lemma_texts_push(copy@, word);
            assert(texts(source@).take(i as int).push(word@) =~= texts(source@).take(i + 1));
        }
        copy.push(word);
        i += 1;
    }
    proof {
        assert(texts(source@).take(source.len() as int) =~= texts(source@));
    }
    copy
}

/// Finds the activities of the day that one can go back to, the nearest
/// first, each with the number of activities that it lies back from the
/// end of the log.
pub fn find_resume_activities(lines: &Vec<String>, config: &TTConfig) -> (stack: Result<
    Vec<(String, Vec<String>, usize)>,
    TTError,
>)
    ensures
        match activities_of(texts(lines@), prefix_of(*config)) {
            Ok(blocks) => stack matches Ok(s) && resume_views(s@) == resume_stack(blocks),
            Err((message, line)) => stack matches Err(e) && crate::log_parser::complains(
                e,
                message,
                line,
            ),
        },
{
    let ghost prefix = prefix_of(*config);
    let ghost all = texts(lines@);
    let mut blocks: Vec<BlockData> = Vec::new();
    let mut i: usize = 0;
    proof {
        assert(all.take(0) =~= Seq::<Seq<char>>::empty());
        assert(data_views(blocks@) =~= Seq::<BlockDataView>::empty());
    }
    while i < lines.len()
        invariant
            i <= lines.len(),
            all == texts(lines@),
            prefix == prefix_of(*config),
            activities_of(all.take(i as int), prefix) == Ok::<
                Seq<BlockDataView>,
                (Seq<char>, Seq<char>),
            >(data_views(blocks@)),
            blocks.len() <= i,
        decreases lines.len() - i,
    {
        proof {
            assert(all.take(i + 1).drop_last() =~= all.take(i as int));
            assert(all.take(i + 1).last() == lines@[i as int]@);
        }
        match Block::from_line(lines[i].clone(), config) {
            Err(error) => {
                proof {
                    lemma_error_stays(all, i + 1, prefix);
                }
                return Err(error);
            },
            Ok(Block::NormalBlock(data)) => {
                proof {
                    assert(data_views(blocks@.push(data)) =~= data_views(blocks@).push(data@));
                }
                blocks.push(data);
            },
            Ok(Block::ReallyBlock(data)) => {
                proof {
                    assert(data_views(blocks@.push(data)) =~= data_views(blocks@).push(data@));
                }
                blocks.push(data);
            },
            Ok(_) => {},
        }
        i += 1;
    }
    proof {
        assert(all.take(lines.len() as int) =~= all);
    }
    let size = blocks.len();
    let mut result: Vec<(String, Vec<String>, usize)> = Vec::new();
    proof {
        assert(resume_views(result@) =~= Seq::<ResumeView>::empty());
    }
    if size <= 1 {
        return Ok(result);
    }
    let ghost views = data_views(blocks@);
    let mut pos: usize = size - 1;
    let mut current: String = blocks[pos].activity.clone();
    loop
        invariant_except_break
            pos < size,
            walk_back(views, pos as nat, current@, resume_views(result@)) == resume_stack(views),
        invariant
            size == blocks.len(),
            views == data_views(blocks@),
        ensures
            resume_views(result@) == resume_stack(views),
        decreases pos,
    {
        let block = &blocks[pos];
        proof {
            assert(views[pos as int] == block@);
        }
        if !same_text(block.activity.as_str(), current.as_str()) && !is_break(
            block.activity.as_str(),
        ) {
            let entry = (block.activity.clone(), copy_of(&block.tags), size - pos);
            proof {
                assert(resume_views(result@.push(entry)) =~= resume_views(result@).push(
                    ResumeView {
                        activity: block.activity@,
                        tags: texts(block.tags@),
                        back: (size - pos) as nat,
                    },
                ));
            }
            result.push(entry);
            current = block.activity.clone();
        }
        let offset = jump_from(&block.tags);
        if pos < offset || offset == 0 {
            break;
        }
        pos -= offset;
    }
    Ok(result)
}

/// Once a line cannot be read, the lines after it change nothing.
proof fn lemma_error_stays(lines: Seq<Seq<char>>, upto: int, prefix: Option<Seq<char>>)
    requires
        0 <= upto <= lines.len(),
        activities_of(lines.take(upto), prefix) is Err,
    ensures
        activities_of(lines, prefix) == activities_of(lines.take(upto), prefix),
    decreases lines.len() - upto,
{
    if upto < lines.len() {
        assert(lines.take(upto + 1).drop_last() =~= lines.take(upto));
        lemma_error_stays(lines, upto + 1, prefix);
    } else {
        assert(lines.take(upto) =~= lines);
    }
}

/// The tags that do not say how far back an activity was resumed from.
pub open spec fn kept_tags(tags: Seq<Seq<char>>) -> Seq<Seq<char>>
    decreases tags.len(),
{
    if tags.len() == 0 {
        seq![]
    } else if is_resume_tag(tags.last()) {
        kept_tags(tags.drop_last())
    } else {
        kept_tags(tags.drop_last()).push(tags.last())
    }
}

/// The entry that goes back to an activity at `start`: the activity is
/// asked for with a `+`, so that it is logged whether it is known or not,
/// and its tags are followed by one that says how far back it was.
pub open spec fn resumed(entry: ResumeView, start: int) -> BlockDataView {
    BlockDataView {
        start,
        activity: "+"@ + entry.activity,
        tags: kept_tags(entry.tags).push("resume:"@ + decimal(entry.back)),
        distribute: distributable_name(entry.activity),
    }
}

/// The block that resumes the activity at place `n` of the activities to
/// go back to, if there is one at that place: a correction of the activity
/// that is going on if `really`, a new activity otherwise.
pub fn resume_block(
    resume_stack: &Vec<(String, Vec<String>, usize)>,
    n: usize,
    start: Time,
    really: bool,
) -> (block: Option<Block>)
    ensures
        block is Some <==> n < resume_stack.len(),
        block matches Some(b) ==> b@ == if really {
            BlockView::Really(resumed(resume_views(resume_stack@)[n as int], start@))
        } else {
            BlockView::Normal(resumed(resume_views(resume_stack@)[n as int], start@))
        },
{
    if n >= resume_stack.len() {
        return None;
    }
    let entry = &resume_stack[n];
    let mut tags: Vec<String> = Vec::new();
    let mut i: usize = 0;
    proof {
        assert(texts(entry.1@).take(0) =~= Seq::<Seq<char>>::empty());
        assert(texts(tags@) =~= Seq::<Seq<char>>::empty());
    }
    while i < entry.1.len()
        invariant
            i <= entry.1.len(),
            texts(tags@) == kept_tags(texts(entry.1@).take(i as int)),
        decreases entry.1.len() - i,
    {
        proof {
            assert(texts(entry.1@).take(i + 1).drop_last() =~= texts(entry.1@).take(i as int));
            assert(texts(entry.1@).take(i + 1).last() == entry.1@[i as int]@);
        }
        if !starts_with_text(entry.1[i].as_str(), "resume:") {
            let tag = entry.1[i].clone();
            proof {
                lemma_texts_push(tags@, tag);
            }
            tags.push(tag);
        }
        i += 1;
    }
    proof {
        assert(texts(entry.1@).take(entry.1.len() as int) =~= texts(entry.1@));
    }
    let mut last = String::from_str("resume:");
    push_decimal(&mut last, entry.2 as u64);
    proof {
        lemma_texts_push(tags@, last);
    }
    tags.push(last);
    let mut activity = String::from_str("+");
    activity.append(entry.0.as_str());
    let data = BlockData {
        start,
        activity,
        tags,
        distribute: is_distributable(entry.0.as_str()),
    };
    Some(Block::from_data(data, really))
}

} // verus!
