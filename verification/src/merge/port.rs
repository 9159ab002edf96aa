//! What a processor sees of the ports that connect it with its neighbours.

use vstd::prelude::*;

use crate::exception::ErrorCode;
use crate::expression::block::DataBlock;

verus! {

/// The port that an input arrives at.
#[derive(Debug)]
pub struct InputPort {
    /// No more data comes.
    pub finished: bool,
    /// The processor has asked for data.
    pub need_data: bool,
    /// What has come and was not taken yet.
    pub data: Option<Result<DataBlock, ErrorCode>>,
}

impl InputPort {
    /// A port that nothing has happened at.
    pub fn create() -> (r: InputPort)
        ensures
            r == (InputPort { finished: false, need_data: false, data: None }),
    {
        InputPort { finished: false, need_data: false, data: None }
    }

    /// No more data comes.
    pub fn is_finished(&self) -> (r: bool)
        ensures
            r == self.finished,
    {
        self.finished
    }

    /// Data has come.
    pub fn has_data(&self) -> (r: bool)
        ensures
            r == (self.data is Some),
    {
        self.data.is_some()
    }

    /// Asks for data.
    pub fn set_need_data(&mut self)
        ensures
            *final(self) == (InputPort { need_data: true, ..*old(self) }),
    {
        self.need_data = true;
    }

    /// Takes what has come.
    pub fn pull_data(&mut self) -> (r: Option<Result<DataBlock, ErrorCode>>)
        ensures
            r == old(self).data,
            *final(self) == (InputPort { data: None, ..*old(self) }),
    {
        self.data.take()
    }

    /// Tells the neighbour that no more data is wanted.
    pub fn finish(&mut self)
        ensures
            *final(self) == (InputPort { finished: true, ..*old(self) }),
    {
        self.finished = true;
    }
}

/// The port that the output leaves by.
#[derive(Debug)]
pub struct OutputPort {
    /// No more data is wanted, or none comes.
    pub finished: bool,
    /// The neighbour takes data.
    pub ready: bool,
    /// What was sent last.
    pub data: Option<Result<DataBlock, ErrorCode>>,
}

impl OutputPort {
    /// A port that nothing has happened at.
    pub fn create() -> (r: OutputPort)
        ensures
            r == (OutputPort { finished: false, ready: false, data: None }),
    {
        OutputPort { finished: false, ready: false, data: None }
    }

    /// No more data is wanted, or none comes.
    pub fn is_finished(&self) -> (r: bool)
        ensures
            r == self.finished,
    {
        self.finished
    }

    /// The neighbour takes data.
    pub fn can_push(&self) -> (r: bool)
        ensures
            r == self.ready,
    {
        self.ready
    }

    /// Sends data. The neighbour takes no more until it has worked on it.
    pub fn push_data(&mut self, data: Result<DataBlock, ErrorCode>)
        ensures
            *final(self) == (OutputPort { ready: false, data: Some(data), ..*old(self) }),
    {
        self.ready = false;
        self.data = Some(data);
    }

    /// Tells the neighbour that no more data comes.
    pub fn finish(&mut self)
        ensures
            *final(self) == (OutputPort { finished: true, ..*old(self) }),
    {
        self.finished = true;
    }
}

} // verus!
