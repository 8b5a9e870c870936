//! Values as a client hands them over.

use vstd::prelude::*;

use crate::text::{join, join_spec, opt_view, same_text, views};

verus! {

// ---------------------------------------------------------------------------
// Best effort
// ---------------------------------------------------------------------------

/// The value of a result, where there is one.
pub fn option<T, E>(result: Result<T, E>) -> (res: Option<T>)
    ensures
        res == (match result {
            Ok(value) => Some(value),
            Err(_) => None,
        }),
{
    match result {
        Ok(value) => Some(value),
        Err(_) => None,
    }
}

/// The value of a result, or the fallback.
pub fn result_or<T, E>(result: Result<T, E>, fallback: T) -> (res: T)
    ensures
        res == (match result {
            Ok(value) => value,
            Err(_) => fallback,
        }),
{
    match result {
        Ok(value) => value,
        Err(_) => fallback,
    }
}

/// The value, or the fallback.
pub fn option_or<T>(value: Option<T>, fallback: T) -> (res: T)
    ensures
        res == (match value {
            Some(value) => value,
            None => fallback,
        }),
{
    match value {
        Some(value) => value,
        None => fallback,
    }
}

// ---------------------------------------------------------------------------
// Message content
// ---------------------------------------------------------------------------

/// A JSON value. The members of an object stand in its order.
#[derive(Debug, PartialEq, Eq)]
pub enum Json {
    Null,
    Bool(bool),
    Number(String),
    Text(String),
    Array(Vec<Json>),
    Object(Vec<Member>),
}

/// A member of a JSON object.
#[derive(Debug, PartialEq, Eq)]
pub struct Member {
    pub key: String,
    pub value: Json,
}

/// The text that a value is.
pub open spec fn text_of(value: Json) -> Option<Seq<char>> {
    match value {
        Json::Text(text) => Some(text@),
        _ => None,
    }
}

/// The text under this key, where it is one. The first member of that name
/// counts.
pub open spec fn member_text(members: Seq<Member>, key: Seq<char>) -> Option<Seq<char>>
    decreases members.len(),
{
    if members.len() == 0 {
        None
    } else if members[0].key@ == key {
        text_of(members[0].value)
    } else {
        member_text(members.drop_first(), key)
    }
}

/// The text of a block: that under `text`, where the block is an object.
pub open spec fn block_text(block: Json) -> Option<Seq<char>> {
    match block {
        Json::Object(members) => member_text(members@, "text"@),
        _ => None,
    }
}

/// The texts of these blocks. A block without text adds nothing.
pub open spec fn block_texts(blocks: Seq<Json>) -> Seq<Seq<char>>
    decreases blocks.len(),
{
    if blocks.len() == 0 {
        Seq::empty()
    } else {
        let before = block_texts(blocks.drop_last());
        match block_text(blocks.last()) {
            Some(text) => before.push(text),
            None => before,
        }
    }
}

/// A message's content as plain text: a bare text as it is, the texts of blocks
/// one after the other, and nothing of anything else.
pub open spec fn flattened(content: Json) -> Seq<char> {
    match content {
        Json::Text(text) => text@,
        Json::Array(blocks) => join_spec(block_texts(blocks@), ""@),
        _ => Seq::empty(),
    }
}

fn text_of_block(block: &Json) -> (res: Option<String>)
    ensures
        opt_view(res) == block_text(*block),
{
    match block {
        Json::Object(members) => text_of_member(members),
        _ => None,
    }
}

fn text_of_member(members: &Vec<Member>) -> (res: Option<String>)
    ensures
        opt_view(res) == member_text(members@, "text"@),
{
    let mut i: usize = 0;
    assert(members@.skip(0) =~= members@);
    while i < members.len()
        invariant
            i <= members@.len(),
            member_text(members@, "text"@) == member_text(members@.skip(i as int), "text"@),
        decreases members@.len() - i,
    {
        assert(members@.skip(i as int)[0] == members@[i as int]);
        assert(members@.skip(i as int).drop_first() =~= members@.skip(i + 1));
        if same_text(members[i].key.as_str(), "text") {
            return match &members[i].value {
                Json::Text(text) => Some(text.clone()),
                _ => None,
            };
        }
        i += 1;
    }
    None
}

pub fn flatten(content: &Json) -> (res: String)
    ensures
        res@ == flattened(*content),
{
    match content {
        Json::Text(text) => text.clone(),
        Json::Array(blocks) => {
            let mut texts: Vec<String> = Vec::new();
            let mut i: usize = 0;
            assert(views(texts@) =~= block_texts(blocks@.take(0)));
            while i < blocks.len()
                invariant
                    i <= blocks@.len(),
                    views(texts@) == block_texts(blocks@.take(i as int)),
                decreases blocks@.len() - i,
            {
                let ghost done = views(texts@);
                assert(blocks@.take(i + 1).drop_last() =~= blocks@.take(i as int));
                if let Some(text) = text_of_block(&blocks[i]) {
                    let ghost one = text@;
                    texts.push(text);
                    assert(views(texts@) =~= done.push(one));
                }
                i += 1;
            }
            assert(blocks@.take(i as int) =~= blocks@);
            join(&texts, "")
        },
        _ => {
            let empty = String::new();
            assert(empty@ =~= Seq::<char>::empty());
            empty
        },
    }
}

proof fn lemma_texts_add(a: Seq<Json>, b: Seq<Json>)
    ensures
        block_texts(a + b) == block_texts(a) + block_texts(b),
    decreases b.len(),
{
    if b.len() == 0 {
        assert(a + b =~= a);
        assert(block_texts(a) + block_texts(b) =~= block_texts(a));
    } else {
        lemma_texts_add(a, b.drop_last());
        assert((a + b).drop_last() =~= a + b.drop_last());
        assert((a + b).last() == b.last());
        assert(block_texts(a + b) =~= block_texts(a) + block_texts(b));
    }
}

proof fn lemma_join_nothing(parts: Seq<Seq<char>>)
    requires
        parts.len() > 0,
    ensures
        join_spec(parts, ""@) == join_spec(parts.drop_last(), ""@) + parts.last(),
{
    reveal_strlit("");
    if parts.len() == 1 {
        assert(join_spec(parts, ""@) =~= join_spec(parts.drop_last(), ""@) + parts.last());
    } else {
        assert(join_spec(parts.drop_last(), ""@) + ""@ =~= join_spec(parts.drop_last(), ""@));
    }
}

proof fn lemma_join_add(a: Seq<Seq<char>>, b: Seq<Seq<char>>)
    ensures
        join_spec(a + b, ""@) == join_spec(a, ""@) + join_spec(b, ""@),
    decreases b.len(),
{
    if b.len() == 0 {
        assert(a + b =~= a);
        assert(join_spec(a, ""@) + join_spec(b, ""@) =~= join_spec(a, ""@));
    } else {
        lemma_join_add(a, b.drop_last());
        lemma_join_nothing(b);
        lemma_join_nothing(a + b);
        assert((a + b).drop_last() =~= a + b.drop_last());
        assert(join_spec(a + b, ""@) =~= join_spec(a, ""@) + join_spec(b, ""@));
    }
}

/// Texts are taken as they are, and blocks one after the other: what comes of
/// two lists of blocks is what comes of the one and then of the other, with
/// nothing between. Anything else comes to nothing.
pub proof fn law_blocks_follow_each_other(
    first: Vec<Json>,
    second: Vec<Json>,
    both: Vec<Json>,
    text: String,
)
    requires
        both@ == first@ + second@,
    ensures
        flattened(Json::Array(both)) == flattened(Json::Array(first)) + flattened(
            Json::Array(second),
        ),
        flattened(Json::Text(text)) == text@,
        flattened(Json::Null).len() == 0,
{
    lemma_texts_add(first@, second@);
    lemma_join_add(block_texts(first@), block_texts(second@));
}

/// A block gives the text of its first member of that name, where that member
/// is a text, and otherwise nothing.
pub proof fn law_blocks_give_their_text(block: Json, only: Vec<Json>)
    requires
        only@ == seq![block],
    ensures
        !(block is Object) ==> flattened(Json::Array(only)).len() == 0,
        block matches Json::Object(members) ==> {
            &&& forall|k: int|
                0 <= k < members@.len() && (#[trigger] members@[k]).key@ == "text"@ && (forall|
                    j: int,
                |
                    0 <= j < k ==> (#[trigger] members@[j]).key@ != "text"@) ==> {
                    &&& members@[k].value matches Json::Text(text) ==> flattened(Json::Array(only))
                        == text@
                    &&& !(members@[k].value is Text) ==> flattened(Json::Array(only)).len() == 0
                }
            &&& (forall|k: int|
                0 <= k < members@.len() ==> (#[trigger] members@[k]).key@ != "text"@) ==> flattened(
                Json::Array(only),
            ).len() == 0
        },
{
    let none = Seq::<Json>::empty();
    assert(only@.drop_last() =~= none);
    assert(block_texts(none) =~= Seq::<Seq<char>>::empty());
    match block_text(block) {
        Some(text) => {
            assert(block_texts(only@) =~= seq![text]);
            assert(join_spec(seq![text], ""@) == text);
        },
        None => {
            assert(block_texts(only@) =~= Seq::<Seq<char>>::empty());
        },
    }
    if let Json::Object(members) = block {
        lemma_member_text(members@, "text"@);
    }
}

proof fn lemma_member_text(members: Seq<Member>, key: Seq<char>)
    ensures
        forall|k: int|
            0 <= k < members.len() && (#[trigger] members[k]).key@ == key && (forall|j: int|
                0 <= j < k ==> (#[trigger] members[j]).key@ != key) ==> member_text(members, key)
                == text_of(members[k].value),
        (forall|k: int| 0 <= k < members.len() ==> (#[trigger] members[k]).key@ != key)
            ==> member_text(members, key) is None,
    decreases members.len(),
{
    if members.len() > 0 && members[0].key@ != key {
        let rest = members.drop_first();
        lemma_member_text(rest, key);
        assert forall|k: int|
            0 <= k < members.len() && (#[trigger] members[k]).key@ == key && (forall|j: int|
                0 <= j < k ==> (#[trigger] members[j]).key@ != key) implies member_text(
            members,
            key,
        ) == text_of(members[k].value) by {
            assert(rest[k - 1] == members[k]);
            assert forall|j: int| 0 <= j < k - 1 implies (#[trigger] rest[j]).key@ != key by {
                assert(rest[j] == members[j + 1]);
            }
        }
        if forall|k: int| 0 <= k < members.len() ==> (#[trigger] members[k]).key@ != key {
            assert forall|k: int| 0 <= k < rest.len() implies (#[trigger] rest[k]).key@ != key by {
                assert(rest[k] == members[k + 1]);
            }
        }
    }
}

} // verus!
