//! What a merge does when its ports change.

use vstd::prelude::*;

use crate::exception::{ErrorCode, ErrorKind};
use crate::expression::block::DataBlock;
use crate::merge::history::{
    lemma_count_unset_subset, row_at, row_cells, sent_rows, History,
};
use crate::merge::port::OutputPort;
use crate::merge::processor::{
    deliveries, done_flags, fails, finished_flags, finished_ports, is_first_failing, lemma_frame,
    none_fails, polled, Event, MultiSortMergeProcessor, ProcessorState, ABORTED,
};

verus! {

/// The limit once some rows were sent.
pub open spec fn limit_after(limit: Option<usize>, rows: nat) -> Option<usize> {
    match limit {
        Some(limit) => Some(
            if rows > limit {
                0
            } else {
                (limit - rows) as usize
            },
        ),
        None => None,
    }
}

/// What comes of polling the inputs: the state and the answer, by what they brought, how many of
/// them are active, whether rows wait and whether rows are in progress.
pub open spec fn consumed(
    before: MultiSortMergeProcessor,
    after: MultiSortMergeProcessor,
    answer: Event,
) -> bool {
    let incoming = deliveries(before.inputs@, before.cursor_finished@, before.n());
    if incoming.len() > 0 {
        &&& after.state matches ProcessorState::Preserve(blocks) && blocks@ == incoming
        &&& answer == Event::Sync
        &&& after.output == before.output
    } else if before.heap.cursors@.len() > 0 {
        &&& after.state matches ProcessorState::Preserve(blocks) && blocks@ == incoming
        &&& answer == Event::Sync
        &&& after.output == before.output
    } else if after.active() > 0 {
        &&& after.state is Consume
        &&& answer == Event::NeedData
        &&& after.output == before.output
    } else if before.in_progess_rows@.len() > 0 {
        &&& after.state is Output
        &&& answer == Event::Sync
        &&& after.output == before.output
    } else {
        &&& after.state is Consume
        &&& answer == Event::Finished
        &&& after.output == (OutputPort { finished: true, ..before.output })
    }
}

/// The blocks that ports bring are of different inputs, in their order.
proof fn lemma_deliveries(before: MultiSortMergeProcessor, k: int)
    requires
        0 <= k <= before.n(),
        before.shape(),
        before.ports_ok(),
        none_fails(before.inputs@, before.cursor_finished@),
    ensures
        before.incoming_ok(deliveries(before.inputs@, before.cursor_finished@, k)),
        forall|s: int|
            0 <= s < deliveries(before.inputs@, before.cursor_finished@, k).len() ==> {
                let i = (#[trigger] deliveries(before.inputs@, before.cursor_finished@, k)[s]).0;
                i < k && !before.inputs@[i as int].finished
            },
    decreases k,
{
    if k > 0 {
        lemma_deliveries(before, k - 1);
        assert(!fails(before.inputs@[k - 1], before.cursor_finished@[k - 1]));
        assert(before.inputs.len() == before.n());
        let earlier = deliveries(before.inputs@, before.cursor_finished@, k - 1);
        let all = deliveries(before.inputs@, before.cursor_finished@, k);
        assert forall|s: int| 0 <= s < earlier.len() implies #[trigger] all[s] == earlier[s] by {}
    }
}

impl MultiSortMergeProcessor {
    /// Asks every input for data and takes what has come of those that no row waits of.
    pub fn get_data_blocks(&mut self) -> (r: Result<Vec<(usize, DataBlock)>, ErrorCode>)
        requires
            old(self).shape(),
        ensures
            *final(self) == (MultiSortMergeProcessor {
                inputs: final(self).inputs,
                input_finished: final(self).input_finished,
                ..*old(self)
            }),
            match r {
                Ok(data) => {
                    &&& none_fails(old(self).inputs@, old(self).cursor_finished@)
                    &&& data@ == deliveries(
                        old(self).inputs@,
                        old(self).cursor_finished@,
                        old(self).n(),
                    )
                    &&& final(self).inputs@ == polled(
                        old(self).inputs@,
                        old(self).cursor_finished@,
                        old(self).n(),
                    )
                    &&& final(self).input_finished@ == finished_flags(
                        old(self).input_finished@,
                        old(self).inputs@,
                        old(self).n(),
                    )
                },
                Err(e) => exists|k: int|
                    {
                        &&& #[trigger] is_first_failing(
                            old(self).inputs@,
                            old(self).cursor_finished@,
                            k,
                        )
                        &&& old(self).inputs@[k].data == Some(Err::<DataBlock, ErrorCode>(e))
                        &&& final(self).inputs@ == polled(
                            old(self).inputs@,
                            old(self).cursor_finished@,
                            k + 1,
                        )
                        &&& final(self).input_finished@ == finished_flags(
                            old(self).input_finished@,
                            old(self).inputs@,
                            k + 1,
                        )
                    },
            },
    {
        let mut data: Vec<(usize, DataBlock)> = Vec::new();
        let ghost inputs = self.inputs@;
        let ghost cursor_finished = self.cursor_finished@;
        let ghost input_finished = self.input_finished@;
        let mut i: usize = 0;
        assert(self.inputs@ =~= polled(inputs, cursor_finished, 0));
        assert(self.input_finished@ =~= finished_flags(input_finished, inputs, 0));
        while i < self.inputs.len()
            invariant
                i <= self.inputs@.len(),
                *self == (MultiSortMergeProcessor {
                    inputs: self.inputs,
                    input_finished: self.input_finished,
                    ..*old(self)
                }),
                old(self).shape(),
                inputs == old(self).inputs@,
                cursor_finished == old(self).cursor_finished@,
                input_finished == old(self).input_finished@,
                self.inputs@ == polled(inputs, cursor_finished, i as int),
                self.input_finished@ == finished_flags(input_finished, inputs, i as int),
                data@ == deliveries(inputs, cursor_finished, i as int),
                forall|j: int| 0 <= j < i ==> !fails(#[trigger] inputs[j], cursor_finished[j]),
            decreases self.inputs@.len() - i,
        {
            assert(self.inputs@[i as int] == inputs[i as int]);
            if self.inputs[i].is_finished() {
                self.input_finished.set(i, true);
                i = i + 1;
                assert(self.inputs@ =~= polled(inputs, cursor_finished, i as int));
                assert(self.input_finished@ =~= finished_flags(
                    input_finished,
                    inputs,
                    i as int,
                ));
                continue;
            }
            self.inputs[i].set_need_data();
            if self.cursor_finished[i] && self.inputs[i].has_data() {
                match self.inputs[i].pull_data() {
                    Some(Ok(block)) => {
                        data.push((i, block));
                    },
                    Some(Err(e)) => {
                        proof {
                            assert(self.inputs@ =~= polled(inputs, cursor_finished, i + 1));
                            assert(self.input_finished@ =~= finished_flags(
                                input_finished,
                                inputs,
                                i + 1,
                            ));
                            assert(is_first_failing(inputs, cursor_finished, i as int));
                        }
                        return Err(e);
                    },
                    None => {},
                }
            }
            i = i + 1;
            assert(self.inputs@ =~= polled(inputs, cursor_finished, i as int));
            assert(self.input_finished@ =~= finished_flags(input_finished, inputs, i as int));
        }
        Ok(data)
    }

    /// Tells every input that no more data is wanted.
    fn finish_inputs(&mut self)
        ensures
            *final(self) == (MultiSortMergeProcessor {
                inputs: final(self).inputs,
                ..*old(self)
            }),
            final(self).inputs@ == finished_ports(old(self).inputs@),
    {
        let ghost inputs = self.inputs@;
        let mut i: usize = 0;
        while i < self.inputs.len()
            invariant
                i <= self.inputs@.len(),
                self.inputs@.len() == inputs.len(),
                *self == (MultiSortMergeProcessor { inputs: self.inputs, ..*old(self) }),
                forall|j: int|
                    0 <= j < i ==> #[trigger] self.inputs@[j] == finished_ports(inputs)[j],
                forall|j: int| i <= j < inputs.len() ==> #[trigger] self.inputs@[j] == inputs[j],
            decreases self.inputs@.len() - i,
        {
            self.inputs[i].finish();
            i = i + 1;
        }
        assert(self.inputs@ =~= finished_ports(inputs));
    }

    /// Sends the block that was built.
    fn send(&mut self) -> (r: Result<Event, ErrorCode>)
        requires
            old(self).wf(),
            old(self).state is Generated,
        ensures
            final(self).wf(),
            r == Ok::<Event, ErrorCode>(Event::NeedConsume),
            old(self).state matches ProcessorState::Generated(block) ==> {
                &&& *final(self) == (MultiSortMergeProcessor {
                    state: ProcessorState::Consume,
                    limit: limit_after(old(self).limit, block.rows()),
                    output: OutputPort { ready: false, data: Some(Ok(block)), ..old(self).output },
                    history: final(self).history,
                    ..*old(self)
                })
                &&& final(self).history@ == (History {
                    pushed: old(self).history@.pushed + sent_rows(block, old(self).width()),
                    sent: old(self).history@.sent.push(block),
                    ..old(self).history@
                })
            },
    {
        let mut state = ProcessorState::Consume;
        std::mem::swap(&mut state, &mut self.state);
        if let ProcessorState::Generated(data_block) = state {
            let rows: usize = data_block.num_rows();
            if let Some(limit) = self.limit {
                self.limit = Some(
                    if rows > limit {
                        0
                    } else {
                        limit - rows
                    },
                );
            }
            proof {
                let h = self.history@;
                self.history@ = History {
                    pushed: h.pushed + sent_rows(data_block, self.width()),
                    sent: h.sent.push(data_block),
                    ..h
                };
                if self.width() > 0 {
                    let h1 = self.history@;
                    assert forall|k: int| 0 <= k < h1.pushed.len() implies #[trigger] h1.pushed[k]
                        == row_at(h1.arrived, h1.emitted[k]).cells by {
                        if k < h.pushed.len() {
                            assert(h1.pushed[k] == h.pushed[k]);
                        } else {
                            assert(h1.pushed[k] == row_cells(
                                data_block,
                                self.width(),
                                k - h.pushed.len(),
                            ));
                        }
                    }
                }
            }
            self.output.push_data(Ok(data_block));
            proof {
                assert(self.history@.sent.drop_last() =~= old(self).history@.sent);
                lemma_frame(*old(self), *self);
            }
        }
        Ok(Event::NeedConsume)
    }

    /// Takes what the inputs bring and says what is to be done with it.
    fn consume(&mut self) -> (r: Result<Event, ErrorCode>)
        requires
            old(self).wf(),
            old(self).state is Consume,
            old(self).limit != Some(0usize),
        ensures
            final(self).wf(),
            match r {
                Ok(answer) => {
                    &&& none_fails(old(self).inputs@, old(self).cursor_finished@)
                    &&& *final(self) == (MultiSortMergeProcessor {
                        inputs: final(self).inputs,
                        input_finished: final(self).input_finished,
                        state: final(self).state,
                        output: final(self).output,
                        ..*old(self)
                    })
                    &&& final(self).inputs@ == polled(
                        old(self).inputs@,
                        old(self).cursor_finished@,
                        old(self).n(),
                    )
                    &&& final(self).input_finished@ == finished_flags(
                        old(self).input_finished@,
                        old(self).inputs@,
                        old(self).n(),
                    )
                    &&& consumed(*old(self), *final(self), answer)
                },
                Err(e) => {
                    &&& *final(self) == (MultiSortMergeProcessor {
                        inputs: final(self).inputs,
                        input_finished: final(self).input_finished,
                        ..*old(self)
                    })
                    &&& exists|k: int|
                        {
                            &&& #[trigger] is_first_failing(
                                old(self).inputs@,
                                old(self).cursor_finished@,
                                k,
                            )
                            &&& old(self).inputs@[k].data == Some(Err::<DataBlock, ErrorCode>(e))
                            &&& final(self).inputs@ == polled(
                                old(self).inputs@,
                                old(self).cursor_finished@,
                                k + 1,
                            )
                            &&& final(self).input_finished@ == finished_flags(
                                old(self).input_finished@,
                                old(self).inputs@,
                                k + 1,
                            )
                        }
                },
            },
    {
        let data_blocks = match self.get_data_blocks() {
            Ok(data_blocks) => data_blocks,
            Err(e) => {
                proof {
                    let k = choose|k: int|
                        {
                            &&& #[trigger] is_first_failing(
                                old(self).inputs@,
                                old(self).cursor_finished@,
                                k,
                            )
                            &&& old(self).inputs@[k].data == Some(Err::<DataBlock, ErrorCode>(e))
                            &&& self.inputs@ == polled(
                                old(self).inputs@,
                                old(self).cursor_finished@,
                                k + 1,
                            )
                            &&& self.input_finished@ == finished_flags(
                                old(self).input_finished@,
                                old(self).inputs@,
                                k + 1,
                            )
                        };
                    lemma_polled(*old(self), *self, k + 1);
                }
                return Err(e);
            },
        };
        proof {
            lemma_polled(*old(self), *self, self.n());
            lemma_deliveries(*old(self), self.n());
            lemma_heap_within_active(*self);
        }
        let ghost polled_self = *self;
        if data_blocks.len() > 0 {
            self.state = ProcessorState::Preserve(data_blocks);
            proof {
                lemma_frame(polled_self, *self);
            }
            return Ok(Event::Sync);
        }
        assert(data_blocks@ =~= Seq::<(usize, DataBlock)>::empty());
        let all_finished = self.nums_active_inputs() == 0;
        if all_finished {
            if !self.heap.is_empty() {
                // The rows that wait are not merged yet.
                self.state = ProcessorState::Preserve(Vec::new());
                proof {
                    lemma_frame(polled_self, *self);
                }
                return Ok(Event::Sync);
            }
            if self.in_progess_rows.len() > 0 {
                // The rows that were merged are not sent yet.
                self.state = ProcessorState::Output;
                proof {
                    lemma_frame(polled_self, *self);
                }
                return Ok(Event::Sync);
            }
            self.output.finish();
            proof {
                lemma_frame(polled_self, *self);
            }
            Ok(Event::Finished)
        } else if !self.heap.is_empty() {
            // The rows that wait are not merged yet.
            self.state = ProcessorState::Preserve(Vec::new());
            proof {
                lemma_frame(polled_self, *self);
            }
            Ok(Event::Sync)
        } else {
            Ok(Event::NeedData)
        }
    }

    /// Looks at the ports, moves what can be moved and says what is to be done next.
    pub fn event(&mut self) -> (r: Result<Event, ErrorCode>)
        requires
            old(self).wf(),
        ensures
            final(self).wf(),
            if old(self).aborting {
                &&& r matches Err(e) && e.says(ErrorKind::AbortedQuery, ABORTED@)
                &&& *final(self) == *old(self)
            } else if old(self).output.finished {
                &&& r == Ok::<Event, ErrorCode>(Event::Finished)
                &&& *final(self) == (MultiSortMergeProcessor {
                    inputs: final(self).inputs,
                    ..*old(self)
                })
                &&& final(self).inputs@ == finished_ports(old(self).inputs@)
            } else if !old(self).output.ready {
                &&& r == Ok::<Event, ErrorCode>(Event::NeedConsume)
                &&& *final(self) == *old(self)
            } else if old(self).limit == Some(0usize) {
                &&& r == Ok::<Event, ErrorCode>(Event::Finished)
                &&& *final(self) == (MultiSortMergeProcessor {
                    inputs: final(self).inputs,
                    output: OutputPort { finished: true, ..old(self).output },
                    ..*old(self)
                })
                &&& final(self).inputs@ == finished_ports(old(self).inputs@)
            } else {
                match old(self).state {
                    ProcessorState::Generated(block) => {
                        &&& r == Ok::<Event, ErrorCode>(Event::NeedConsume)
                        &&& *final(self) == (MultiSortMergeProcessor {
                            state: ProcessorState::Consume,
                            limit: limit_after(old(self).limit, block.rows()),
                            output: OutputPort {
                                ready: false,
                                data: Some(Ok(block)),
                                ..old(self).output
                            },
                            history: final(self).history,
                            ..*old(self)
                        })
                        &&& final(self).history@ == (History {
                            pushed: old(self).history@.pushed + sent_rows(
                                block,
                                old(self).width(),
                            ),
                            sent: old(self).history@.sent.push(block),
                            ..old(self).history@
                        })
                    },
                    ProcessorState::Consume => match r {
                        Ok(answer) => {
                            &&& none_fails(old(self).inputs@, old(self).cursor_finished@)
                            &&& *final(self) == (MultiSortMergeProcessor {
                                inputs: final(self).inputs,
                                input_finished: final(self).input_finished,
                                state: final(self).state,
                                output: final(self).output,
                                ..*old(self)
                            })
                            &&& final(self).inputs@ == polled(
                                old(self).inputs@,
                                old(self).cursor_finished@,
                                old(self).n(),
                            )
                            &&& final(self).input_finished@ == finished_flags(
                                old(self).input_finished@,
                                old(self).inputs@,
                                old(self).n(),
                            )
                            &&& consumed(*old(self), *final(self), answer)
                        },
                        Err(e) => {
                            &&& *final(self) == (MultiSortMergeProcessor {
                                inputs: final(self).inputs,
                                input_finished: final(self).input_finished,
                                ..*old(self)
                            })
                            &&& exists|k: int|
                                {
                                    &&& #[trigger] is_first_failing(
                                        old(self).inputs@,
                                        old(self).cursor_finished@,
                                        k,
                                    )
                                    &&& old(self).inputs@[k].data == Some(
                                        Err::<DataBlock, ErrorCode>(e),
                                    )
                                    &&& final(self).inputs@ == polled(
                                        old(self).inputs@,
                                        old(self).cursor_finished@,
                                        k + 1,
                                    )
                                    &&& final(self).input_finished@ == finished_flags(
                                        old(self).input_finished@,
                                        old(self).inputs@,
                                        k + 1,
                                    )
                                }
                        },
                    },
                    ProcessorState::Output => {
                        &&& r == Ok::<Event, ErrorCode>(Event::Sync)
                        &&& *final(self) == *old(self)
                    },
                    ProcessorState::Preserve(_) => {
                        &&& r matches Err(e) && e.says(ErrorKind::LogicalError, "It's a bug."@)
                        &&& *final(self) == *old(self)
                    },
                }
            },
    {
        if self.aborting {
            return Err(ErrorCode::create(ErrorKind::AbortedQuery, ABORTED));
        }
        if self.output.is_finished() {
            self.finish_inputs();
            proof {
                lemma_ports_only(*old(self), *self);
            }
            return Ok(Event::Finished);
        }
        if !self.output.can_push() {
            return Ok(Event::NeedConsume);
        }
        if let Some(limit) = self.limit {
            if limit == 0 {
                self.finish_inputs();
                self.output.finish();
                proof {
                    lemma_ports_only(*old(self), *self);
                }
                return Ok(Event::Finished);
            }
        }
        match self.state {
            ProcessorState::Generated(_) => self.send(),
            ProcessorState::Consume => self.consume(),
            ProcessorState::Output => Ok(Event::Sync),
            ProcessorState::Preserve(_) => Err(
                ErrorCode::create(ErrorKind::LogicalError, "It's a bug."),
            ),
        }
    }
}

/// Polling some of the inputs leaves the rest as it is.
proof fn lemma_polled(
    before: MultiSortMergeProcessor,
    after: MultiSortMergeProcessor,
    k: int,
)
    requires
        before.wf(),
        0 <= k <= before.n(),
        after == (MultiSortMergeProcessor {
            inputs: after.inputs,
            input_finished: after.input_finished,
            ..before
        }),
        before.state is Consume,
        after.inputs@ == polled(before.inputs@, before.cursor_finished@, k),
        after.input_finished@ == finished_flags(before.input_finished@, before.inputs@, k),
    ensures
        after.wf(),
{
    lemma_frame(before, after);
    assert forall|i: int| 0 <= i < after.n() implies {
        &&& after.input_finished@[i] ==> (#[trigger] after.inputs@[i]).finished
        &&& after.inputs@[i].data matches Some(Ok(block)) ==> after.fits(block)
    } by {
        assert(before.inputs@[i] == before.inputs@[i]);
    }
}

/// Rows wait only of inputs that are active.
pub proof fn lemma_heap_within_active(p: MultiSortMergeProcessor)
    requires
        p.shape(),
        p.heap_ok(),
    ensures
        p.heap.cursors@.len() <= p.active(),
        p.heap.cursors@.len() >= p.active() ==> forall|i: int|
            0 <= i < p.n() && #[trigger] p.cursor_finished@[i] ==> p.input_finished@[i],
{
    let done = done_flags(p.input_finished@, p.cursor_finished@);
    lemma_count_unset_subset(p.cursor_finished@, done);
    if p.heap.cursors@.len() >= p.active() {
        assert forall|i: int| 0 <= i < p.n() && #[trigger] p.cursor_finished@[i] implies
            p.input_finished@[i] by {
            assert(done[i]);
        }
    }
}

/// Ports that are told to finish do not matter to the rest.
proof fn lemma_ports_only(before: MultiSortMergeProcessor, after: MultiSortMergeProcessor)
    requires
        before.wf(),
        after == (MultiSortMergeProcessor {
            inputs: after.inputs,
            output: after.output,
            ..before
        }),
        after.inputs@ == finished_ports(before.inputs@),
    ensures
        after.wf(),
{
    lemma_frame(before, after);
    assert forall|i: int| 0 <= i < after.n() implies {
        &&& after.input_finished@[i] ==> (#[trigger] after.inputs@[i]).finished
        &&& after.inputs@[i].data matches Some(Ok(block)) ==> after.fits(block)
    } by {
        assert(before.inputs@[i] == before.inputs@[i]);
    }
}

} // verus!
