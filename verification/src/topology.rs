//! The registered actors and their subscriptions, and the views of them that a
//! supervisor exports: a Mermaid flowchart and per-actor subscription lists.
use vstd::prelude::*;
use vstd::string::StringExecFns;

use crate::ids::ActorId;
use crate::routing::Subscription;
use crate::text::{label_order, lex_le, sort_labels, texts};
use vstd::relations::sorted_by;
use crate::topic::{label_string, Label};

verus! {

/// The labels of a list of topics.
pub open spec fn topic_labels<T: Label>(topics: Seq<T>) -> Seq<Seq<char>> {
    topics.map_values(|t: T| t.spec_label())
}

/// The labels a subscription lists explicitly.
pub open spec fn listed_by<T: Label>(s: Subscription<T>) -> Seq<Seq<char>> {
    match s {
        Subscription::Topics(v) => topic_labels(v@),
        _ => Seq::empty(),
    }
}

/// The labels of the topics that registrations list explicitly, in order.
pub open spec fn listed_labels<T: Label>(regs: Seq<(ActorId, Subscription<T>)>) -> Seq<Seq<char>>
    decreases regs.len(),
{
    if regs.len() == 0 {
        Seq::empty()
    } else {
        listed_labels(regs.drop_last()) + listed_by(regs.last().1)
    }
}

/// A sorted sequence without its repetitions.
pub open spec fn dedup_sorted(s: Seq<Seq<char>>) -> Seq<Seq<char>>
    decreases s.len(),
{
    if s.len() <= 1 {
        s
    } else if s[s.len() - 1] == s[s.len() - 2] {
        dedup_sorted(s.drop_last())
    } else {
        dedup_sorted(s.drop_last()).push(s.last())
    }
}

/// Every label that some registration lists, once each, in label order.
pub open spec fn all_labels<T: Label>(regs: Seq<(ActorId, Subscription<T>)>) -> Seq<Seq<char>> {
    dedup_sorted(listed_labels(regs).sort_by(label_order()))
}

/// The flowchart line of an edge from a topic to an actor.
pub open spec fn edge(topic: Seq<char>, actor: Seq<char>) -> Seq<char> {
    "    "@ + topic + "(("@ + topic + ")) --> "@ + actor
}

/// The flowchart line of an actor that receives nothing.
pub open spec fn node(actor: Seq<char>) -> Seq<char> {
    "    "@ + actor + "["@ + actor + "]"@
}

/// The flowchart lines of one registration: an edge from every topic it
/// receives (every listed topic, for a subscriber to all topics), or a lone
/// node for an actor that receives nothing.
pub open spec fn actor_lines<T: Label>(actor: Seq<char>, s: Subscription<T>, all: Seq<Seq<char>>) -> Seq<Seq<char>> {
    match s {
        Subscription::All => all.map_values(|t: Seq<char>| edge(t, actor)),
        Subscription::Topics(v) => topic_labels(v@).map_values(|t: Seq<char>| edge(t, actor)),
        Subscription::NoTopics => seq![node(actor)],
    }
}

/// The flowchart lines of all registrations, in registration order.
pub open spec fn diagram_lines<T: Label>(regs: Seq<(ActorId, Subscription<T>)>, all: Seq<Seq<char>>) -> Seq<Seq<char>>
    decreases regs.len(),
{
    if regs.len() == 0 {
        Seq::empty()
    } else {
        diagram_lines(regs.drop_last(), all) + actor_lines(regs.last().0@, regs.last().1, all)
    }
}

/// Each line preceded by a line break.
pub open spec fn on_new_lines(lines: Seq<Seq<char>>) -> Seq<char>
    decreases lines.len(),
{
    if lines.len() == 0 {
        Seq::empty()
    } else {
        on_new_lines(lines.drop_last()) + "\n"@ + lines.last()
    }
}

/// The Mermaid flowchart of the registrations.
pub open spec fn mermaid<T: Label>(regs: Seq<(ActorId, Subscription<T>)>) -> Seq<char> {
    "flowchart LR"@ + on_new_lines(diagram_lines(regs, all_labels(regs)))
}

/// A registration's subscription and the labels given for its topics fit: one
/// label per listed topic, none for any other subscription.
pub open spec fn fits_one<T>(s: Subscription<T>, labels: Seq<Seq<char>>) -> bool {
    match s {
        Subscription::Topics(v) => labels.len() == v@.len(),
        _ => labels.len() == 0,
    }
}

/// Labels are given for every registration, fitting each.
pub open spec fn fits<T>(regs: Seq<(ActorId, Subscription<T>)>, labs: Seq<Seq<Seq<char>>>) -> bool {
    &&& labs.len() == regs.len()
    &&& forall|i: int| 0 <= i < regs.len() ==> #[trigger] fits_one(regs[i].1, labs[i])
}

/// The labels that the topics' own specifications give each registration.
pub open spec fn spec_labs<T: Label>(regs: Seq<(ActorId, Subscription<T>)>) -> Seq<Seq<Seq<char>>> {
    regs.map_values(|r: (ActorId, Subscription<T>)| listed_by(r.1))
}

/// All given labels, registration after registration.
pub open spec fn flat(labs: Seq<Seq<Seq<char>>>) -> Seq<Seq<char>>
    decreases labs.len(),
{
    if labs.len() == 0 {
        Seq::empty()
    } else {
        flat(labs.drop_last()) + labs.last()
    }
}

/// The given labels, once each, in label order.
pub open spec fn collected(labs: Seq<Seq<Seq<char>>>) -> Seq<Seq<char>> {
    dedup_sorted(flat(labs).sort_by(label_order()))
}

/// The flowchart lines of one registration whose topics carry the labels
/// `labels`: an edge from each of them, an edge from every label of `all` for
/// a subscriber to all topics, or a lone node for an actor that receives nothing.
pub open spec fn actor_lines_with<T>(actor: Seq<char>, s: Subscription<T>, labels: Seq<Seq<char>>, all: Seq<Seq<char>>) -> Seq<Seq<char>> {
    match s {
        Subscription::All => all.map_values(|t: Seq<char>| edge(t, actor)),
        Subscription::Topics(_) => labels.map_values(|t: Seq<char>| edge(t, actor)),
        Subscription::NoTopics => seq![node(actor)],
    }
}

/// The flowchart lines of all registrations with the given labels, in
/// registration order.
pub open spec fn diagram_lines_with<T>(
    regs: Seq<(ActorId, Subscription<T>)>,
    labs: Seq<Seq<Seq<char>>>,
    all: Seq<Seq<char>>,
) -> Seq<Seq<char>>
    decreases regs.len(),
{
    if regs.len() == 0 {
        Seq::empty()
    } else {
        diagram_lines_with(regs.drop_last(), labs.drop_last(), all) + actor_lines_with(
            regs.last().0@,
            regs.last().1,
            labs[regs.len() - 1],
            all,
        )
    }
}

/// With the labels the specifications give, the given labels are the listed ones.
proof fn lemma_flat_spec_labs<T: Label>(regs: Seq<(ActorId, Subscription<T>)>)
    ensures
        flat(spec_labs(regs)) == listed_labels(regs),
        fits(regs, spec_labs(regs)),
    decreases regs.len(),
{
    if regs.len() > 0 {
        lemma_flat_spec_labs(regs.drop_last());
        assert(spec_labs(regs).drop_last() =~= spec_labs(regs.drop_last()));
    }
    assert forall|i: int| 0 <= i < regs.len() implies #[trigger] fits_one(regs[i].1, spec_labs(regs)[i]) by {
        match regs[i].1 {
            Subscription::Topics(v) => {},
            _ => {},
        }
    }
}

/// With the labels the specifications give, the lines are those of the diagram.
proof fn lemma_lines_spec_labs<T: Label>(regs: Seq<(ActorId, Subscription<T>)>, all: Seq<Seq<char>>)
    ensures
        diagram_lines_with(regs, spec_labs(regs), all) == diagram_lines(regs, all),
    decreases regs.len(),
{
    if regs.len() > 0 {
        lemma_lines_spec_labs(regs.drop_last(), all);
        assert(spec_labs(regs).drop_last() =~= spec_labs(regs.drop_last()));
        let last = regs.last();
        assert(actor_lines_with(last.0@, last.1, spec_labs(regs)[regs.len() - 1], all) == actor_lines(last.0@, last.1, all));
    }
}

/// Labels for one more registration extend fitting labels.
proof fn lemma_fits_push<T>(regs: Seq<(ActorId, Subscription<T>)>, labs: Seq<Seq<Seq<char>>>, i: int, cur: Seq<Seq<char>>)
    requires
        0 <= i < regs.len(),
        fits(regs.take(i), labs),
        fits_one(regs[i].1, cur),
    ensures
        fits(regs.take(i + 1), labs.push(cur)),
{
    assert forall|k: int| 0 <= k < i + 1 implies #[trigger] fits_one(regs.take(i + 1)[k].1, labs.push(cur)[k]) by {
        if k < i {
            assert(regs.take(i)[k] == regs.take(i + 1)[k]);
            assert(fits_one(regs.take(i)[k].1, labs[k]));
        }
    }
}

/// The labels an actor receives when its topics carry `labels`: every label of
/// `all` for a subscriber to all topics, its own labels for one that lists
/// topics, none otherwise.
pub open spec fn received_with<T>(s: Subscription<T>, labels: Seq<Seq<char>>, all: Seq<Seq<char>>) -> Seq<Seq<char>> {
    match s {
        Subscription::All => all,
        Subscription::Topics(_) => labels,
        Subscription::NoTopics => Seq::empty(),
    }
}

/// The labels an actor receives: every listed label for a subscriber to all
/// topics, its own topics' labels otherwise.
pub open spec fn received_labels<T: Label>(s: Subscription<T>, all: Seq<Seq<char>>) -> Seq<Seq<char>> {
    match s {
        Subscription::All => all,
        Subscription::Topics(v) => topic_labels(v@),
        Subscription::NoTopics => Seq::empty(),
    }
}

/// The registered actors, in registration order, with their subscriptions.
pub struct Topology<T> {
    registrations: Vec<(ActorId, Subscription<T>)>,
}

impl<T> Topology<T> {
    /// The registrations, in order.
    pub closed spec fn regs(&self) -> Seq<(ActorId, Subscription<T>)> {
        self.registrations@
    }

    /// No registrations yet.
    pub fn new() -> (r: Topology<T>)
        ensures
            r.regs().len() == 0,
    {
        Topology { registrations: Vec::new() }
    }

    /// Records that `actor` was registered with `subscription`.
    pub fn register(&mut self, actor: ActorId, subscription: Subscription<T>)
        ensures
            final(self).regs() == old(self).regs().push((actor, subscription)),
    {
        self.registrations.push((actor, subscription));
    }
}

impl<T: Label> Topology<T> {

    /// The labels of all explicitly listed topics, each once, in label order:
    /// the labels the topics' `label` calls gave, deduplicated and sorted.
    pub fn all_topic_labels(&self) -> (r: Vec<String>)
        ensures
            exists|labs: Seq<Seq<Seq<char>>>| #![trigger fits(self.regs(), labs)]
                fits(self.regs(), labs) && texts(r@) == collected(labs) && (T::obeys_label_spec() ==> labs == spec_labs(
                    self.regs(),
                )),
            T::obeys_label_spec() ==> texts(r@) == all_labels(self.regs()),
    {
        let mut labels: Vec<String> = Vec::new();
        let ghost mut labs: Seq<Seq<Seq<char>>> = Seq::empty();
        let n = self.registrations.len();
        proof {
            assert(texts(labels@) =~= flat(labs));
            assert(spec_labs(self.regs().take(0)) =~= labs);
        }
        for i in 0..n
            invariant
                n == self.regs().len(),
                labs.len() == i,
                texts(labels@) == flat(labs),
                fits(self.regs().take(i as int), labs),
                T::obeys_label_spec() ==> labs == spec_labs(self.regs().take(i as int)),
        {
            let ghost before = texts(labels@);
            let ghost mut cur: Seq<Seq<char>> = Seq::empty();
            match &self.registrations[i].1 {
                Subscription::Topics(topics) => {
                    let m = topics.len();
                    for j in 0..m
                        invariant
                            m == topics@.len(),
                            cur.len() == j,
                            texts(labels@) == before + cur,
                            T::obeys_label_spec() ==> cur == topic_labels(topics@).take(j as int),
                    {
                        let label = label_string(topics[j].label());
                        let ghost prev = labels@;
                        labels.push(label);
                        proof {
                            let ghost c0 = cur;
                            cur = cur.push(label@);
                            assert(texts(labels@) =~= texts(prev).push(label@));
                            assert(texts(labels@) =~= before + cur);
                            if T::obeys_label_spec() {
                                assert(topic_labels(topics@).take(j as int + 1) =~= topic_labels(topics@).take(j as int).push(topics@[j as int].spec_label()));
                            }
                        }
                    }
                    proof {
                        assert(topic_labels(topics@).take(m as int) =~= topic_labels(topics@));
                    }
                },
                _ => {
                    proof {
                        assert(before + cur =~= before);
                    }
                },
            }
            proof {
                let regs = self.regs();
                lemma_fits_push(regs, labs, i as int, cur);
                let old_labs = labs;
                labs = labs.push(cur);
                assert(labs.drop_last() =~= old_labs);
                assert(texts(labels@) == flat(labs));
                assert(regs.take(i as int + 1) =~= regs.take(i as int).push(regs[i as int]));
                if T::obeys_label_spec() {
                    assert(spec_labs(regs.take(i as int + 1)) =~= spec_labs(regs.take(i as int)).push(listed_by(regs[i as int].1)));
                    assert(cur == listed_by(regs[i as int].1));
                }
            }
        }
        proof {
            assert(self.regs().take(n as int) =~= self.regs());
        }
        let sorted = sort_labels(labels);
        let r = dedup_adjacent(sorted);
        proof {
            assert(texts(r@) == collected(labs));
            assert(fits(self.regs(), labs));
            if T::obeys_label_spec() {
                lemma_flat_spec_labs(self.regs());
            }
        }
        r
    }

    /// The Mermaid flowchart of the registered actors: `flowchart LR`, then,
    /// for each actor in registration order, an edge from each topic it lists
    /// (under the label that topic's `label` gave), an edge from every collected
    /// topic label for a subscriber to all topics, or a lone node for an actor
    /// that receives nothing.
    pub fn to_mermaid(&self) -> (r: String)
        ensures
            exists|labs: Seq<Seq<Seq<char>>>, labs2: Seq<Seq<Seq<char>>>|
                #![trigger fits(self.regs(), labs), fits(self.regs(), labs2)]
                fits(self.regs(), labs) && fits(self.regs(), labs2) && r@ == "flowchart LR"@ + on_new_lines(
                    diagram_lines_with(self.regs(), labs, collected(labs2)),
                ),
            T::obeys_label_spec() ==> r@ == mermaid(self.regs()),
    {
        let all = self.all_topic_labels();
        let ghost labs2 = choose|labs: Seq<Seq<Seq<char>>>| #![trigger fits(self.regs(), labs)]
            fits(self.regs(), labs) && texts(all@) == collected(labs) && (T::obeys_label_spec() ==> labs == spec_labs(
                self.regs(),
            ));
        let mut out = String::from_str("flowchart LR");
        let ghost header = "flowchart LR"@;
        let ghost al = texts(all@);
        let ghost mut labs: Seq<Seq<Seq<char>>> = Seq::empty();
        let n = self.registrations.len();
        proof {
            assert(spec_labs(self.regs().take(0)) =~= labs);
            assert(out@ =~= header + on_new_lines(diagram_lines_with(self.regs().take(0), labs, al)));
        }
        for i in 0..n
            invariant
                n == self.regs().len(),
                al == texts(all@),
                labs.len() == i,
                fits(self.regs().take(i as int), labs),
                T::obeys_label_spec() ==> labs == spec_labs(self.regs().take(i as int)),
                out@ == header + on_new_lines(diagram_lines_with(self.regs().take(i as int), labs, al)),
        {
            let ghost done = diagram_lines_with(self.regs().take(i as int), labs, al);
            let actor = self.registrations[i].0.as_str();
            let ghost mut cur: Seq<Seq<char>> = Seq::empty();
            match &self.registrations[i].1 {
                Subscription::All => {
                    let ghost lines = al.map_values(|t: Seq<char>| edge(t, actor@));
                    let m = all.len();
                    for j in 0..m
                        invariant
                            m == al.len(),
                            al == texts(all@),
                            lines == al.map_values(|t: Seq<char>| edge(t, actor@)),
                            out@ == header + on_new_lines(done + lines.take(j as int)),
                    {
                        append_edge(&mut out, all[j].as_str(), actor);
                        proof {
                            lemma_next_line(header, done + lines.take(j as int), lines[j as int]);
                            assert(done + lines.take(j as int + 1) =~= (done + lines.take(j as int)).push(lines[j as int]));
                        }
                    }
                    proof {
                        assert(lines.take(m as int) =~= lines);
                    }
                },
                Subscription::Topics(topics) => {
                    let m = topics.len();
                    for j in 0..m
                        invariant
                            m == topics@.len(),
                            cur.len() == j,
                            T::obeys_label_spec() ==> cur == topic_labels(topics@).take(j as int),
                            out@ == header + on_new_lines(done + cur.map_values(|t: Seq<char>| edge(t, actor@))),
                    {
                        let label = label_string(topics[j].label());
                        append_edge(&mut out, label.as_str(), actor);
                        proof {
                            let c0 = cur;
                            lemma_next_line(header, done + c0.map_values(|t: Seq<char>| edge(t, actor@)), edge(label@, actor@));
                            cur = cur.push(label@);
                            assert(cur.map_values(|t: Seq<char>| edge(t, actor@)) =~= c0.map_values(|t: Seq<char>| edge(t, actor@)).push(edge(label@, actor@)));
                            assert(done + cur.map_values(|t: Seq<char>| edge(t, actor@)) =~= (done + c0.map_values(|t: Seq<char>| edge(t, actor@))).push(edge(label@, actor@)));
                            if T::obeys_label_spec() {
                                assert(topic_labels(topics@).take(j as int + 1) =~= topic_labels(topics@).take(j as int).push(topics@[j as int].spec_label()));
                            }
                        }
                    }
                    proof {
                        assert(topic_labels(topics@).take(m as int) =~= topic_labels(topics@));
                    }
                },
                Subscription::NoTopics => {
                    append_node(&mut out, actor);
                    proof {
                        lemma_next_line(header, done, node(actor@));
                    }
                },
            }
            proof {
                let regs = self.regs();
                let lines = actor_lines_with(actor@, regs[i as int].1, cur, al);
                lemma_fits_push(regs, labs, i as int, cur);
                let old_labs = labs;
                labs = labs.push(cur);
                assert(labs.drop_last() =~= old_labs);
                let next = regs.take(i as int + 1);
                assert(next.drop_last() =~= regs.take(i as int));
                assert(next.last() == regs[i as int]);
                match regs[i as int].1 {
                    Subscription::All => {
                        assert(lines.take(lines.len() as int) =~= lines);
                    },
                    Subscription::Topics(_) => {},
                    Subscription::NoTopics => {
                        assert(done + lines =~= done.push(node(actor@)));
                    },
                }
                assert(diagram_lines_with(next, labs, al) == done + lines);
                if T::obeys_label_spec() {
                    assert(spec_labs(next) =~= spec_labs(regs.take(i as int)).push(listed_by(regs[i as int].1)));
                    assert(cur == listed_by(regs[i as int].1));
                }
            }
        }
        proof {
            let regs = self.regs();
            assert(regs.take(n as int) =~= regs);
            assert(al == collected(labs2));
            assert(fits(regs, labs) && fits(regs, labs2));
            if T::obeys_label_spec() {
                lemma_lines_spec_labs(regs, al);
                assert(al == all_labels(regs));
            }
        }
        out
    }

    /// For each actor in registration order, its name and the labels it
    /// receives, sorted: its own topics' labels (as their `label` calls gave
    /// them), every collected label for a subscriber to all topics, or none.
    /// This is what a supervisor exports as JSON.
    pub fn subscription_exports(&self) -> (r: Vec<(String, Vec<String>)>)
        ensures
            r@.len() == self.regs().len(),
            forall|i: int| 0 <= i < r@.len() ==> (#[trigger] r@[i]).0@ == self.regs()[i].0@,
            exists|labs: Seq<Seq<Seq<char>>>, labs2: Seq<Seq<Seq<char>>>|
                #![trigger fits(self.regs(), labs), fits(self.regs(), labs2)]
                fits(self.regs(), labs) && fits(self.regs(), labs2) && forall|i: int|
                    0 <= i < r@.len() ==> texts((#[trigger] r@[i]).1@) == received_with(
                        self.regs()[i].1,
                        labs[i],
                        collected(labs2),
                    ).sort_by(label_order()),
            T::obeys_label_spec() ==> forall|i: int| 0 <= i < r@.len() ==> texts((#[trigger] r@[i]).1@)
                == received_labels(self.regs()[i].1, all_labels(self.regs())).sort_by(label_order()),
    {
        let all = self.all_topic_labels();
        let ghost labs2 = choose|labs: Seq<Seq<Seq<char>>>| #![trigger fits(self.regs(), labs)]
            fits(self.regs(), labs) && texts(all@) == collected(labs) && (T::obeys_label_spec() ==> labs == spec_labs(
                self.regs(),
            ));
        let ghost al = texts(all@);
        let mut out: Vec<(String, Vec<String>)> = Vec::new();
        let ghost mut labs: Seq<Seq<Seq<char>>> = Seq::empty();
        let n = self.registrations.len();
        proof {
            assert(self.regs().take(0) =~= Seq::<(ActorId, Subscription<T>)>::empty());
        }
        for i in 0..n
            invariant
                n == self.regs().len(),
                al == texts(all@),
                al == collected(labs2),
                T::obeys_label_spec() ==> al == all_labels(self.regs()),
                labs.len() == i,
                fits(self.regs().take(i as int), labs),
                out@.len() == i,
                forall|k: int| 0 <= k < i ==> (#[trigger] out@[k]).0@ == self.regs()[k].0@,
                forall|k: int| 0 <= k < i ==> texts((#[trigger] out@[k]).1@) == received_with(self.regs()[k].1, labs[k], al).sort_by(
                    label_order(),
                ),
                T::obeys_label_spec() ==> forall|k: int| 0 <= k < i ==> texts((#[trigger] out@[k]).1@)
                    == received_labels(self.regs()[k].1, all_labels(self.regs())).sort_by(label_order()),
        {
            let ghost mut cur: Seq<Seq<char>> = Seq::empty();
            let raw: Vec<String> = match &self.registrations[i].1 {
                Subscription::All => copy_labels(&all),
                Subscription::Topics(topics) => {
                    let mut v: Vec<String> = Vec::new();
                    let m = topics.len();
                    for j in 0..m
                        invariant
                            m == topics@.len(),
                            cur.len() == j,
                            texts(v@) == cur,
                            T::obeys_label_spec() ==> cur == topic_labels(topics@).take(j as int),
                    {
                        let label = label_string(topics[j].label());
                        let ghost prev = v@;
                        v.push(label);
                        proof {
                            cur = cur.push(label@);
                            assert(texts(v@) =~= texts(prev).push(label@));
                            if T::obeys_label_spec() {
                                assert(topic_labels(topics@).take(j as int + 1) =~= topic_labels(topics@).take(j as int).push(topics@[j as int].spec_label()));
                            }
                        }
                    }
                    proof {
                        assert(topic_labels(topics@).take(m as int) =~= topic_labels(topics@));
                    }
                    v
                },
                Subscription::NoTopics => {
                    let v: Vec<String> = Vec::new();
                    proof {
                        assert(texts(v@) =~= Seq::empty());
                    }
                    v
                },
            };
            proof {
                let regs = self.regs();
                assert(texts(raw@) == received_with(regs[i as int].1, cur, al));
                assert(fits_one(regs[i as int].1, cur));
                if T::obeys_label_spec() {
                    assert(texts(raw@) == received_labels(regs[i as int].1, all_labels(regs)));
                }
                lemma_fits_push(regs, labs, i as int, cur);
                labs = labs.push(cur);
                assert(regs.take(i as int + 1) =~= regs.take(i as int).push(regs[i as int]));
            }
            let subs = sort_labels(raw);
            let name = String::from_str(self.registrations[i].0.as_str());
            out.push((name, subs));
        }
        proof {
            assert(self.regs().take(n as int) =~= self.regs());
            assert(fits(self.regs(), labs) && fits(self.regs(), labs2));
        }
        out
    }
}

/// Appends a line break and the flowchart edge from `topic` to `actor`.
fn append_edge(out: &mut String, topic: &str, actor: &str)
    ensures
        final(out)@ == old(out)@ + "\n"@ + edge(topic@, actor@),
{
    out.append("\n");
    out.append("    ");
    out.append(topic);
    out.append("((");
    out.append(topic);
    out.append(")) --> ");
    out.append(actor);
    proof {
        assert(final(out)@ =~= old(out)@ + "\n"@ + edge(topic@, actor@));
    }
}

/// Appends a line break and the flowchart node of `actor`.
fn append_node(out: &mut String, actor: &str)
    ensures
        final(out)@ == old(out)@ + "\n"@ + node(actor@),
{
    out.append("\n");
    out.append("    ");
    out.append(actor);
    out.append("[");
    out.append(actor);
    out.append("]");
    proof {
        assert(final(out)@ =~= old(out)@ + "\n"@ + node(actor@));
    }
}

/// Writing one more line after a text that ends with some lines.
proof fn lemma_next_line(header: Seq<char>, done: Seq<Seq<char>>, line: Seq<char>)
    ensures
        header + on_new_lines(done.push(line)) == header + on_new_lines(done) + "\n"@ + line,
{
    assert(done.push(line).drop_last() =~= done);
    assert(header + on_new_lines(done.push(line)) =~= header + on_new_lines(done) + "\n"@ + line);
}

/// A copy of a list of labels.
fn copy_labels(v: &Vec<String>) -> (r: Vec<String>)
    ensures
        texts(r@) == texts(v@),
{
    let mut r: Vec<String> = Vec::new();
    let n = v.len();
    for i in 0..n
        invariant
            n == v@.len(),
            texts(r@) == texts(v@).take(i as int),
    {
        let ghost prev = r@;
        r.push(v[i].clone());
        proof {
            assert(texts(r@) =~= texts(prev).push(v@[i as int]@));
            assert(texts(r@) =~= texts(v@).take(i as int + 1));
        }
    }
    proof {
        assert(texts(v@).take(n as int) =~= texts(v@));
    }
    r
}

/// Drops the repetitions from a sorted list of labels.
fn dedup_adjacent(v: Vec<String>) -> (r: Vec<String>)
    ensures
        texts(r@) == dedup_sorted(texts(v@)),
{
    let ghost all = texts(v@);
    let mut r: Vec<String> = Vec::new();
    let n = v.len();
    let mut i: usize = 0;
    while i < n
        invariant
            n == v@.len(),
            i <= n,
            all == texts(v@),
            texts(r@) == dedup_sorted(all.take(i as int)),
            i > 0 ==> r@.len() > 0 && texts(r@).last() == all[i - 1],
        decreases n - i,
    {
        proof {
            assert(all.take(i as int + 1).drop_last() =~= all.take(i as int));
            lemma_dedup_last(all.take(i as int));
        }
        if i == 0 || !(v[i - 1] == v[i]) {
            r.push(v[i].clone());
            proof {
                assert(texts(r@) =~= dedup_sorted(all.take(i as int)).push(all[i as int]));
            }
        }
        i = i + 1;
    }
    proof {
        assert(all.take(n as int) =~= all);
    }
    r
}

/// Dropping repetitions from a sorted list keeps exactly its labels, once
/// each, still sorted.
pub proof fn lemma_dedup_sorted(s: Seq<Seq<char>>)
    requires
        sorted_by(s, label_order()),
    ensures
        sorted_by(dedup_sorted(s), label_order()),
        dedup_sorted(s).no_duplicates(),
        forall|x: Seq<char>| #[trigger] dedup_sorted(s).contains(x) <==> s.contains(x),
    decreases s.len(),
{
    let lo = label_order();
    if s.len() > 1 {
        let p = s.drop_last();
        assert(sorted_by(p, lo)) by {
            assert forall|i: int, j: int| 0 <= i < j < p.len() implies #[trigger] lo(p[i], p[j]) by {
                assert(lo(s[i], s[j]));
            }
        }
        lemma_dedup_sorted(p);
        let d = dedup_sorted(p);
        let last = s.last();
        if s[s.len() - 1] == s[s.len() - 2] {
            assert forall|x: Seq<char>| #[trigger] dedup_sorted(s).contains(x) <==> s.contains(x) by {
                if s.contains(x) {
                    let k = choose|k: int| 0 <= k < s.len() && s[k] == x;
                    if k == s.len() - 1 {
                        assert(p[s.len() - 2] == x);
                    } else {
                        assert(p[k] == x);
                    }
                }
                if p.contains(x) {
                    let k = choose|k: int| 0 <= k < p.len() && p[k] == x;
                    assert(s[k] == x);
                }
            }
        } else {
            assert(dedup_sorted(s) == d.push(last));
            assert forall|x: Seq<char>| #[trigger] d.contains(x) implies lex_le(x, last) && x != last by {
                assert(p.contains(x));
                let k = choose|k: int| 0 <= k < p.len() && p[k] == x;
                assert(lo(s[k], s[s.len() - 1]));
                if x == last {
                    assert(lo(s[s.len() - 2], s[s.len() - 1]));
                    if k < s.len() - 2 {
                        assert(lo(s[k], s[s.len() - 2]));
                    }
                    crate::text::lemma_lex_antisymmetric(s[s.len() - 2], last);
                }
            }
            let e = d.push(last);
            assert(sorted_by(e, lo)) by {
                assert forall|i: int, j: int| 0 <= i < j < e.len() implies #[trigger] lo(e[i], e[j]) by {
                    if j == d.len() {
                        assert(d.contains(e[i]));
                    } else {
                        assert(lo(d[i], d[j]));
                    }
                }
            }
            assert(e.no_duplicates()) by {
                assert forall|i: int, j: int| 0 <= i < e.len() && 0 <= j < e.len() && i != j implies e[i] != e[j] by {
                    if i == d.len() {
                        assert(d.contains(e[j]));
                    } else if j == d.len() {
                        assert(d.contains(e[i]));
                    }
                }
            }
            assert forall|x: Seq<char>| #[trigger] e.contains(x) <==> s.contains(x) by {
                if s.contains(x) {
                    let k = choose|k: int| 0 <= k < s.len() && s[k] == x;
                    if k == s.len() - 1 {
                        assert(e[d.len() as int] == x);
                    } else {
                        assert(p[k] == x);
                        assert(d.contains(x));
                        let q = choose|q: int| 0 <= q < d.len() && d[q] == x;
                        assert(e[q] == x);
                    }
                }
                if e.contains(x) {
                    let q = choose|q: int| 0 <= q < e.len() && e[q] == x;
                    if q == d.len() {
                        assert(s[s.len() - 1] == x);
                    } else {
                        assert(d[q] == x);
                        assert(d.contains(x));
                        assert(p.contains(x));
                        let k = choose|k: int| 0 <= k < p.len() && p[k] == x;
                        assert(s[k] == x);
                    }
                }
            }
        }
    } else {
        assert(dedup_sorted(s) == s);
    }
}

/// The topic labels a supervisor lists are sorted, each appears once, and they
/// are exactly the labels of the topics that registrations list.
pub proof fn law_topic_labels_sorted_and_distinct<T: Label>(regs: Seq<(ActorId, Subscription<T>)>)
    ensures
        sorted_by(all_labels(regs), label_order()),
        all_labels(regs).no_duplicates(),
        forall|x: Seq<char>| #[trigger] all_labels(regs).contains(x) <==> listed_labels(regs).contains(x),
{
    crate::text::lemma_label_order_total();
    let l = listed_labels(regs);
    l.lemma_sort_by_ensures(label_order());
    lemma_dedup_sorted(l.sort_by(label_order()));
    assert forall|x: Seq<char>| #[trigger] all_labels(regs).contains(x) <==> l.contains(x) by {
        broadcast use vstd::seq_lib::group_to_multiset_ensures;
        assert(l.sort_by(label_order()).contains(x) <==> l.sort_by(label_order()).to_multiset().count(x) > 0);
        assert(l.contains(x) <==> l.to_multiset().count(x) > 0);
    }
}

/// The last label kept is the last label of the input.
proof fn lemma_dedup_last(s: Seq<Seq<char>>)
    ensures
        s.len() > 0 ==> dedup_sorted(s).len() > 0 && dedup_sorted(s).last() == s.last(),
    decreases s.len(),
{
    if s.len() > 1 {
        lemma_dedup_last(s.drop_last());
    }
}

} // verus!
