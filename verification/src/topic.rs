//! The topics under which a collection is published and served.

use vstd::prelude::*;

verus! {

/// The topic `ce-coord/log/<writer>/<name>`, on which a writer publishes its operations.
pub open spec fn op_topic(writer: Seq<char>, name: Seq<char>) -> Seq<char> {
    "ce-coord/log/"@ + writer + "/"@ + name
}

/// The topic `ce-coord/catchup/<writer>/<name>`, on which a writer serves catch-up requests.
pub open spec fn catchup_topic(writer: Seq<char>, name: Seq<char>) -> Seq<char> {
    "ce-coord/catchup/"@ + writer + "/"@ + name
}

/// Names the topic on which `writer` publishes the operations of the collection `name`.
pub fn op_topic_name(writer: &str, name: &str) -> (topic: String)
    ensures
        topic@ == op_topic(writer@, name@),
{
    "ce-coord/log/".to_owned().concat(writer).concat("/").concat(name)
}

/// Names the topic on which `writer` serves catch-up requests for the collection `name`.
pub fn catchup_topic_name(writer: &str, name: &str) -> (topic: String)
    ensures
        topic@ == catchup_topic(writer@, name@),
{
    "ce-coord/catchup/".to_owned().concat(writer).concat("/").concat(name)
}

/// Two collections share a topic only when they have the same writer and the same name. A NodeId
/// is hexadecimal, so it holds no slash.
pub proof fn topics_never_collide(
    writer1: Seq<char>,
    name1: Seq<char>,
    writer2: Seq<char>,
    name2: Seq<char>,
)
    requires
        !writer1.contains('/'),
        !writer2.contains('/'),
    ensures
        op_topic(writer1, name1) == op_topic(writer2, name2) ==> writer1 == writer2 && name1
            == name2,
        catchup_topic(writer1, name1) == catchup_topic(writer2, name2) ==> writer1 == writer2
            && name1 == name2,
        op_topic(writer1, name1) != catchup_topic(writer2, name2),
{
    reveal_strlit("ce-coord/log/");
    reveal_strlit("ce-coord/catchup/");
    reveal_strlit("/");
    if op_topic(writer1, name1) == op_topic(writer2, name2) {
        lemma_split_unique("ce-coord/log/"@, writer1, name1, writer2, name2);
    }
    if catchup_topic(writer1, name1) == catchup_topic(writer2, name2) {
        lemma_split_unique("ce-coord/catchup/"@, writer1, name1, writer2, name2);
    }
    assert(op_topic(writer1, name1)[9] == 'l');
    assert(catchup_topic(writer2, name2)[9] == 'c');
}

/// A text that is a prefix, a part without slashes, a slash and a rest splits in one way only.
proof fn lemma_split_unique(
    prefix: Seq<char>,
    a1: Seq<char>,
    b1: Seq<char>,
    a2: Seq<char>,
    b2: Seq<char>,
)
    requires
        !a1.contains('/'),
        !a2.contains('/'),
        prefix + a1 + "/"@ + b1 == prefix + a2 + "/"@ + b2,
    ensures
        a1 == a2,
        b1 == b2,
{
    reveal_strlit("/");
    let t1 = prefix + a1 + "/"@ + b1;
    let t2 = prefix + a2 + "/"@ + b2;
    let p = prefix.len() as int;
    assert(t1[p + a1.len()] == '/');
    assert(t2[p + a2.len()] == '/');
    if a1.len() < a2.len() {
        assert(t2[p + a1.len()] == a2[a1.len() as int]);
    }
    if a2.len() < a1.len() {
        assert(t1[p + a2.len()] == a1[a2.len() as int]);
    }
    assert(a1 =~= t1.subrange(p, p + a1.len()));
    assert(a2 =~= t2.subrange(p, p + a2.len()));
    assert(b1 =~= t1.subrange(p + a1.len() + 1, t1.len() as int));
    assert(b2 =~= t2.subrange(p + a2.len() + 1, t2.len() as int));
}

/// The writer and the name can be read off a topic: it is a fixed beginning, the writer, a slash
/// and the name, all of them whole.
pub proof fn topics_read_back(writer: Seq<char>, name: Seq<char>)
    ensures
        ({
            let log = op_topic(writer, name);
            let n = writer.len() as int;
            &&& log.take(13) == "ce-coord/log/"@
            &&& log.skip(13).take(n) == writer
            &&& log[13 + n] == '/'
            &&& log.skip(14 + n) == name
        }),
        ({
            let catchup = catchup_topic(writer, name);
            let n = writer.len() as int;
            &&& catchup.take(17) == "ce-coord/catchup/"@
            &&& catchup.skip(17).take(n) == writer
            &&& catchup[17 + n] == '/'
            &&& catchup.skip(18 + n) == name
        }),
{
    reveal_strlit("ce-coord/log/");
    reveal_strlit("ce-coord/catchup/");
    reveal_strlit("/");
    let n = writer.len() as int;
    let log = op_topic(writer, name);
    assert(log.take(13) =~= "ce-coord/log/"@);
    assert(log.skip(13).take(n) =~= writer);
    assert(log.skip(14 + n) =~= name);
    let catchup = catchup_topic(writer, name);
    assert(catchup.take(17) =~= "ce-coord/catchup/"@);
    assert(catchup.skip(17).take(n) =~= writer);
    assert(catchup.skip(18 + n) =~= name);
}

} // verus!
