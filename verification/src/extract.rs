//! The streaming-to-record extraction core: a capability trait for record
//! kinds, the record assembler with its last-field boundary policy, and the
//! event stream that turns tokenizer events into completed records.
//!
//! Boundary policy: a record completes the instant its designated last field
//! is assigned. A record is never emitted without having received at least
//! one field assignment, and the assembler fully resets between records.

use vstd::prelude::*;

use crate::text::normalize_text;
use crate::text::remove_excess_whitespace;

verus! {

/// One primitive event of the streaming tokenizer, reduced to plain values.
#[derive(Debug)]
pub enum XmlEvent {
    /// An element start, with its raw tag name.
    Start(String),
    /// A text node, entity references already resolved.
    Text(String),
    /// An element end.
    End,
    /// A low-level token the tokenizer could not parse; skipped, not fatal.
    Malformed,
    /// Any other token (comment, declaration, processing instruction, ...).
    Other,
}

/// A record kind extractable from tagged events: it classifies tag names into
/// its field identifiers, starts from a default value, accepts field
/// assignments, and designates the last field of a record.
pub trait FromXmlEvents: View + Sized {
    /// The closed set of recognized field identifiers of this record kind.
    type FieldType: Copy;

    /// The model of the default (untouched) record.
    spec fn spec_default() -> Self::V;

    /// The field identifier a raw tag name stands for, if any; unrecognized
    /// names are no error, they simply classify to nothing.
    spec fn spec_classify(name: Seq<char>) -> Option<Self::FieldType>;

    /// The model of storing `text` into the slot named by `f`.
    spec fn spec_insert(v: Self::V, f: Self::FieldType, text: Seq<char>) -> Self::V;

    /// Whether `f` is the designated last field of a record.
    spec fn spec_is_last(f: Self::FieldType) -> bool;

    /// The default (untouched) record value.
    fn default_record() -> (r: Self)
        ensures
            r@ == Self::spec_default(),
    ;

    /// Classifies a raw tag name; exact, case-sensitive table lookup.
    fn classify(name: &str) -> (r: Option<Self::FieldType>)
        ensures
            r == Self::spec_classify(name@),
    ;

    /// Stores `text` into the slot named by `f`.
    fn insert_xml_value(&mut self, f: Self::FieldType, text: &str)
        ensures
            final(self)@ == Self::spec_insert(old(self)@, f, text@),
    ;

    /// Whether `f` is the designated last field of a record.
    fn is_last_field(f: Self::FieldType) -> (r: bool)
        ensures
            r == Self::spec_is_last(f),
    ;
}

/// What one assignment does to an assembler state (record model, started
/// flag): the normalized text is stored in the named slot; if that slot is
/// the record's last field the finished record is emitted and the state
/// resets, else the state is marked started.
pub open spec fn spec_assign<T: FromXmlEvents>(
    st: (T::V, bool),
    f: T::FieldType,
    text: Seq<char>,
) -> ((T::V, bool), Option<T::V>) {
    let inserted = T::spec_insert(st.0, f, normalize_text(text));
    if T::spec_is_last(f) {
        ((T::spec_default(), false), Some(inserted))
    } else {
        ((inserted, true), None::<T::V>)
    }
}

/// Accumulates (field identifier, text) assignments into an in-progress
/// record and decides, by the last-field boundary policy, when it completes.
pub struct RecordAssembler<T: FromXmlEvents> {
    /// The in-progress record.
    pub current: T,
    /// Whether any field was assigned since the last completion.
    pub started: bool,
}

impl<T: FromXmlEvents> RecordAssembler<T> {
    /// The assembler state: the in-progress record's model and whether any
    /// field was assigned since the last completion.
    pub open spec fn state(self) -> (T::V, bool) {
        (self.current@, self.started)
    }

    /// A fresh assembler in the reset state.
    pub fn new() -> (r: Self)
        ensures
            r.state() == (T::spec_default(), false),
    {
        RecordAssembler { current: T::default_record(), started: false }
    }

    /// Stores `normalize(raw_text)` into the slot named by `f`; emits the
    /// finished record and fully resets when `f` is the record's last field.
    pub fn assign(&mut self, f: T::FieldType, raw_text: &str) -> (emitted: Option<T>)
        ensures
            ({
                let (st2, out) = spec_assign::<T>(old(self).state(), f, raw_text@);
                &&& final(self).state() == st2
                &&& (match emitted {
                    Some(r) => out == Some(r@),
                    None => out is None,
                })
            }),
    {
        let text = remove_excess_whitespace(raw_text);
        self.current.insert_xml_value(f, text.as_str());
        self.started = true;
        if T::is_last_field(f) {
            let mut done = T::default_record();
            core::mem::swap(&mut done, &mut self.current);
            self.started = false;
            Some(done)
        } else {
            None
        }
    }
}

/// What one tokenizer event does to the stream state: an element start
/// reclassifies the active field, a text node under an active field is
/// assigned to the assembler, and everything else (ends, malformed tokens,
/// other markup) is skipped.
pub open spec fn spec_step<T: FromXmlEvents>(
    active: Option<T::FieldType>,
    st: (T::V, bool),
    ev: XmlEvent,
) -> (Option<T::FieldType>, (T::V, bool), Option<T::V>) {
    match ev {
        XmlEvent::Start(name) => (T::spec_classify(name@), st, None::<T::V>),
        XmlEvent::Text(text) => match active {
            Some(f) => {
                let (st2, out) = spec_assign::<T>(st, f, text@);
                (active, st2, out)
            },
            None => (active, st, None::<T::V>),
        },
        _ => (active, st, None::<T::V>),
    }
}

/// The records a run over `evs` emits, starting from the given stream state.
pub open spec fn spec_run<T: FromXmlEvents>(
    active: Option<T::FieldType>,
    st: (T::V, bool),
    evs: Seq<XmlEvent>,
) -> Seq<T::V>
    decreases evs.len(),
{
    if evs.len() == 0 {
        Seq::empty()
    } else {
        let (a2, st2, out) = spec_step::<T>(active, st, evs[0]);
        (match out {
            Some(r) => seq![r],
            None => Seq::empty(),
        }) + spec_run::<T>(a2, st2, evs.skip(1))
    }
}

/// A lazy, single-pass stream of completed records over a tokenized event
/// sequence; restartable only by building a new one.
pub struct XmlEvents<T: FromXmlEvents> {
    /// The tokenized events, in document order.
    pub events: Vec<XmlEvent>,
    /// How many events were consumed so far.
    pub pos: usize,
    /// The field identifier of the most recent element start, if recognized.
    pub active: Option<T::FieldType>,
    /// The record assembler.
    pub assembler: RecordAssembler<T>,
}

impl<T: FromXmlEvents> XmlEvents<T> {
    /// The consumed prefix never runs past the events.
    pub open spec fn wf(self) -> bool {
        self.pos <= self.events@.len()
    }

    /// The records the rest of the stream will emit.
    pub open spec fn future(self) -> Seq<T::V> {
        spec_run::<T>(self.active, self.assembler.state(), self.events@.skip(self.pos as int))
    }

    /// A stream over the given tokenized events.
    pub fn new(events: Vec<XmlEvent>) -> (r: Self)
        ensures
            r.wf(),
            r.events == events,
            r.future() == spec_run::<T>(
                None::<T::FieldType>,
                (T::spec_default(), false),
                events@,
            ),
    {
        let r = XmlEvents {
            events,
            pos: 0,
            active: None::<T::FieldType>,
            assembler: RecordAssembler::<T>::new(),
        };
        proof {
            assert(r.events@.skip(0) =~= r.events@);
        }
        r
    }

    /// The next completed record, or nothing once the events are exhausted.
    /// An incomplete record in progress at the end of input is discarded.
    pub fn next(&mut self) -> (r: Option<T>)
        requires
            old(self).wf(),
        ensures
            final(self).wf(),
            final(self).events == old(self).events,
            match r {
                Some(rec) => {
                    &&& old(self).future() == seq![rec@] + final(self).future()
                    &&& old(self).pos < final(self).pos
                },
                None => {
                    &&& old(self).future().len() == 0
                    &&& final(self).future().len() == 0
                },
            },
    {
        loop
            invariant
                self.wf(),
                self.events == old(self).events,
                self.future() == old(self).future(),
                old(self).pos <= self.pos,
            decreases self.events@.len() - self.pos,
        {
            if self.pos == self.events.len() {
                return None;
            }
            let ghost old_active = self.active;
            let ghost old_st = self.assembler.state();
            let ghost rest = self.events@.skip(self.pos as int);
            proof {
                assert(rest.len() > 0);
                assert(rest[0] == self.events@[self.pos as int]);
                assert(rest.skip(1) =~= self.events@.skip(self.pos as int + 1));
            }
            let ev = &self.events[self.pos];
            self.pos = self.pos + 1;
            match ev {
                XmlEvent::Start(name) => {
                    self.active = T::classify(name.as_str());
                    proof {
                        assert(spec_run::<T>(old_active, old_st, rest) == Seq::<T::V>::empty()
                            + spec_run::<T>(self.active, old_st, rest.skip(1)));
                        assert(Seq::<T::V>::empty() + spec_run::<T>(
                            self.active,
                            old_st,
                            rest.skip(1),
                        ) =~= spec_run::<T>(self.active, old_st, rest.skip(1)));
                    }
                },
                XmlEvent::Text(text) => {
                    match self.active {
                        Some(f) => {
                            let out = self.assembler.assign(f, text.as_str());
                            proof {
                                let (st2, sout) = spec_assign::<T>(old_st, f, text@);
                                assert(spec_run::<T>(old_active, old_st, rest) == (match sout {
                                    Some(rr) => seq![rr],
                                    None => Seq::<T::V>::empty(),
                                }) + spec_run::<T>(old_active, st2, rest.skip(1)));
                            }
                            match out {
                                Some(rec) => {
                                    proof {
                                        assert(self.future() == spec_run::<T>(
                                            self.active,
                                            self.assembler.state(),
                                            rest.skip(1),
                                        ));
                                    }
                                    return Some(rec);
                                },
                                None => {
                                    proof {
                                        assert(Seq::<T::V>::empty() + spec_run::<T>(
                                            self.active,
                                            self.assembler.state(),
                                            rest.skip(1),
                                        ) =~= spec_run::<T>(
                                            self.active,
                                            self.assembler.state(),
                                            rest.skip(1),
                                        ));
                                    }
                                },
                            }
                        },
                        None => {
                            proof {
                                assert(spec_run::<T>(old_active, old_st, rest) == Seq::<
                                    T::V,
                                >::empty() + spec_run::<T>(old_active, old_st, rest.skip(1)));
                                assert(Seq::<T::V>::empty() + spec_run::<T>(
                                    old_active,
                                    old_st,
                                    rest.skip(1),
                                ) =~= spec_run::<T>(old_active, old_st, rest.skip(1)));
                            }
                        },
                    }
                },
                _ => {
                    proof {
                        assert(spec_run::<T>(old_active, old_st, rest) == Seq::<T::V>::empty()
                            + spec_run::<T>(old_active, old_st, rest.skip(1)));
                        assert(Seq::<T::V>::empty() + spec_run::<T>(
                            old_active,
                            old_st,
                            rest.skip(1),
                        ) =~= spec_run::<T>(old_active, old_st, rest.skip(1)));
                    }
                },
            }
        }
    }
}

/// Drains a tokenized event sequence into the records it emits, in order.
pub fn extract_records<T: FromXmlEvents>(events: Vec<XmlEvent>) -> (out: Vec<T>)
    ensures
        out@.map_values(|r: T| r@) == spec_run::<T>(
            None::<T::FieldType>,
            (T::spec_default(), false),
            events@,
        ),
{
    let ghost total = spec_run::<T>(None::<T::FieldType>, (T::spec_default(), false), events@);
    let mut stream = XmlEvents::<T>::new(events);
    let mut out: Vec<T> = Vec::new();
    proof {
        assert(out@.map_values(|r: T| r@) =~= Seq::<T::V>::empty());
        assert(Seq::<T::V>::empty() + stream.future() =~= stream.future());
    }
    loop
        invariant
            stream.wf(),
            out@.map_values(|r: T| r@) + stream.future() == total,
        ensures
            out@.map_values(|r: T| r@) == total,
        decreases stream.events@.len() - stream.pos,
    {
        let ghost old_map = out@.map_values(|r: T| r@);
        match stream.next() {
            Some(rec) => {
                out.push(rec);
                proof {
                    assert(out@.map_values(|r: T| r@) =~= old_map.push(rec@));
                    assert(old_map.push(rec@) =~= old_map + seq![rec@]);
                    assert((old_map + seq![rec@]) + stream.future() =~= old_map + (seq![rec@]
                        + stream.future()));
                }
            },
            None => {
                proof {
                    assert(old_map + stream.future() =~= old_map);
                }
                break ;
            },
        }
    }
    out
}

/// The records a sequence of direct (field identifier, text) assignments
/// makes the assembler emit, from the given state.
pub open spec fn run_pairs<T: FromXmlEvents>(
    st: (T::V, bool),
    pairs: Seq<(T::FieldType, Seq<char>)>,
) -> Seq<T::V>
    decreases pairs.len(),
{
    if pairs.len() == 0 {
        Seq::empty()
    } else {
        let (st2, out) = spec_assign::<T>(st, pairs[0].0, pairs[0].1);
        (match out {
            Some(r) => seq![r],
            None => Seq::empty(),
        }) + run_pairs::<T>(st2, pairs.skip(1))
    }
}

/// The record value a sequence of assignments builds up from `v`, with each
/// text normalized into its slot.
pub open spec fn fold_pairs<T: FromXmlEvents>(
    v: T::V,
    pairs: Seq<(T::FieldType, Seq<char>)>,
) -> T::V
    decreases pairs.len(),
{
    if pairs.len() == 0 {
        v
    } else {
        fold_pairs::<T>(T::spec_insert(v, pairs[0].0, normalize_text(pairs[0].1)), pairs.skip(1))
    }
}

/// How many assignments of a sequence trigger the boundary policy.
pub open spec fn count_triggers<T: FromXmlEvents>(pairs: Seq<(T::FieldType, Seq<char>)>) -> nat
    decreases pairs.len(),
{
    if pairs.len() == 0 {
        0
    } else {
        (if T::spec_is_last(pairs[0].0) {
            1nat
        } else {
            0nat
        }) + count_triggers::<T>(pairs.skip(1))
    }
}

/// Whether `r` is a record whose designated last field was written by one of
/// the given assignments.
pub open spec fn emitted_from<T: FromXmlEvents>(
    pairs: Seq<(T::FieldType, Seq<char>)>,
    r: T::V,
) -> bool {
    exists|j: int, prev: T::V|
        0 <= j < pairs.len() && T::spec_is_last(pairs[j].0) && r == #[trigger] T::spec_insert(
            prev,
            pairs[j].0,
            normalize_text(pairs[j].1),
        )
}

/// A well-formed single-record assignment sequence, fed to a reset assembler,
/// emits exactly one record: the fold of all its assignments, whatever the
/// starting record value of the fold's state.
pub proof fn lemma_one_record_from<T: FromXmlEvents>(
    st: (T::V, bool),
    pairs: Seq<(T::FieldType, Seq<char>)>,
)
    requires
        pairs.len() > 0,
        T::spec_is_last(pairs.last().0),
        forall|i: int| 0 <= i < pairs.len() - 1 ==> !T::spec_is_last(#[trigger] pairs[i].0),
    ensures
        run_pairs::<T>(st, pairs) == seq![fold_pairs::<T>(st.0, pairs)],
    decreases pairs.len(),
{
    let (st2, out) = spec_assign::<T>(st, pairs[0].0, pairs[0].1);
    let inserted = T::spec_insert(st.0, pairs[0].0, normalize_text(pairs[0].1));
    if pairs.len() == 1 {
        assert(pairs[0] == pairs.last());
        assert(pairs.skip(1) =~= Seq::<(T::FieldType, Seq<char>)>::empty());
        assert(run_pairs::<T>(st2, pairs.skip(1)) == Seq::<T::V>::empty());
        assert(run_pairs::<T>(st, pairs) =~= seq![inserted]);
        assert(fold_pairs::<T>(st.0, pairs) == fold_pairs::<T>(inserted, pairs.skip(1)));
    } else {
        assert(!T::spec_is_last(pairs[0].0));
        let tail = pairs.skip(1);
        assert(tail.last() == pairs.last());
        assert(forall|i: int| 0 <= i < tail.len() - 1 ==> tail[i] == pairs[i + 1]);
        lemma_one_record_from::<T>(st2, tail);
        assert(run_pairs::<T>(st, pairs) == Seq::<T::V>::empty() + run_pairs::<T>(st2, tail));
        assert(Seq::<T::V>::empty() + seq![fold_pairs::<T>(inserted, tail)] =~= seq![
            fold_pairs::<T>(inserted, tail),
        ]);
        assert(fold_pairs::<T>(st.0, pairs) == fold_pairs::<T>(inserted, tail));
    }
}

/// A well-formed single-record assignment sequence makes a reset assembler
/// emit exactly one record, equal to the fold of its assignments.
pub proof fn lemma_one_record<T: FromXmlEvents>(pairs: Seq<(T::FieldType, Seq<char>)>)
    requires
        pairs.len() > 0,
        T::spec_is_last(pairs.last().0),
        forall|i: int| 0 <= i < pairs.len() - 1 ==> !T::spec_is_last(#[trigger] pairs[i].0),
    ensures
        run_pairs::<T>((T::spec_default(), false), pairs) == seq![
            fold_pairs::<T>(T::spec_default(), pairs),
        ],
{
    lemma_one_record_from::<T>((T::spec_default(), false), pairs);
}

/// The assembler emits exactly as many records as boundary triggers occur —
/// so never more — and every emitted record had its designated last field
/// written by one of the assignments: no untouched record is ever emitted.
pub proof fn lemma_emissions_bounded<T: FromXmlEvents>(
    st: (T::V, bool),
    pairs: Seq<(T::FieldType, Seq<char>)>,
)
    ensures
        run_pairs::<T>(st, pairs).len() == count_triggers::<T>(pairs),
        forall|k: int|
            0 <= k < run_pairs::<T>(st, pairs).len() ==> emitted_from::<T>(
                pairs,
                #[trigger] run_pairs::<T>(st, pairs)[k],
            ),
    decreases pairs.len(),
{
    if pairs.len() == 0 {
    } else {
        let (st2, out) = spec_assign::<T>(st, pairs[0].0, pairs[0].1);
        let tail = pairs.skip(1);
        let rest_run = run_pairs::<T>(st2, tail);
        lemma_emissions_bounded::<T>(st2, tail);
        let run = run_pairs::<T>(st, pairs);
        assert forall|k: int| 0 <= k < run.len() implies emitted_from::<T>(pairs, run[k]) by {
            let first: int = if T::spec_is_last(pairs[0].0) {
                1
            } else {
                0
            };
            if T::spec_is_last(pairs[0].0) && k == 0 {
                let inserted = T::spec_insert(st.0, pairs[0].0, normalize_text(pairs[0].1));
                assert(run[0] == inserted);
                assert(0 <= 0 < pairs.len() && T::spec_is_last(pairs[0].0) && run[k]
                    == T::spec_insert(st.0, pairs[0].0, normalize_text(pairs[0].1)));
            } else {
                let k2 = k - first;
                assert(run[k] == rest_run[k2]);
                assert(emitted_from::<T>(tail, rest_run[k2]));
                let (j, prev): (int, T::V) = choose|j: int, prev: T::V|
                    0 <= j < tail.len() && T::spec_is_last(tail[j].0) && rest_run[k2]
                        == #[trigger] T::spec_insert(prev, tail[j].0, normalize_text(tail[j].1));
                assert(tail[j] == pairs[j + 1]);
                assert(0 <= j + 1 < pairs.len() && T::spec_is_last(pairs[j + 1].0) && run[k]
                    == T::spec_insert(prev, pairs[j + 1].0, normalize_text(pairs[j + 1].1)));
            }
        }
    }
}

} // verus!
