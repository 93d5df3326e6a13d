//! The client side of a session: handshake bookkeeping, one round trip per
//! batch, and a teardown marker sent exactly once.
//!
//! The connection works over plain text: everything the transport delivers
//! is handed in up front, and everything to be sent accumulates in the
//! connection, for the surrounding program to write out.

use vstd::prelude::*;

use crate::slim_deserialize::{FromSlimReaderError, read_result_list, spec_read_result_list};
use crate::slim_serialize::{ToSlimString, instructions_to_slim_string, spec_enc_instruction_list,
    spec_enc_str};
use crate::strutil::substring;
use crate::{Instruction, InstructionResult, SlimVersion, SlimVersionReadError, spec_trim};

verus! {

/// A client connection: the received text with a cursor, the text to be
/// sent, the negotiated version, and whether the teardown marker has been
/// sent.
pub struct SlimConnection {
    reader: String,
    pos: usize,
    writer: String,
    version: SlimVersion,
    closed: bool,
}

/// Why a connection could not be established.
#[derive(Debug)]
pub enum NewSlimConnectionError {
    /// Fewer than the thirteen greeting characters arrived.
    UnexpectedEof,
    /// The greeting did not carry an accepted version.
    SlimVersionReadError(SlimVersionReadError),
}

/// Why a round trip failed.
#[derive(Debug)]
pub enum SendInstructionsError {
    FromSlimReaderError(FromSlimReaderError),
}

impl SlimConnection {
    /// The received text.
    pub closed spec fn received(&self) -> Seq<char> {
        self.reader@
    }

    /// How much of the received text has been consumed.
    pub closed spec fn consumed(&self) -> int {
        self.pos as int
    }

    /// Everything handed to the transport so far.
    pub closed spec fn written(&self) -> Seq<char> {
        self.writer@
    }

    /// The negotiated version.
    pub closed spec fn spec_version(&self) -> SlimVersion {
        self.version
    }

    /// Whether the teardown marker has been sent.
    pub closed spec fn is_closed(&self) -> bool {
        self.closed
    }

    /// The cursor never runs past the received text.
    pub closed spec fn wf(&self) -> bool {
        self.pos <= self.reader@.len()
    }

    /// Open a connection over received text: the first thirteen characters
    /// must be a greeting carrying an accepted version.
    pub fn new(reader: String) -> (r: Result<SlimConnection, NewSlimConnectionError>)
        ensures
            reader@.len() < 13 ==> r matches Err(NewSlimConnectionError::UnexpectedEof),
            reader@.len() >= 13 ==> match crate::strutil::spec_find_sub(
                reader@.take(13),
                " -- "@,
                0,
            ) {
                None => r matches Err(
                    NewSlimConnectionError::SlimVersionReadError(SlimVersionReadError::Invalid),
                ),
                Some(i) => {
                    let token = spec_trim(reader@.take(13).skip(i + 4));
                    if token == "V0.3"@ || token == "V0.4"@ || token == "V0.5"@ {
                        (r is Ok && r->Ok_0.wf() && !r->Ok_0.is_closed() && r->Ok_0.received()
                            == reader@ && r->Ok_0.consumed() == 13 && r->Ok_0.written() == Seq::<
                            char,
                        >::empty() && (token == "V0.3"@ ==> r->Ok_0.spec_version()
                            == SlimVersion::V0_3) && (token == "V0.4"@ ==> r->Ok_0.spec_version()
                            == SlimVersion::V0_4) && (token == "V0.5"@ ==> r->Ok_0.spec_version()
                            == SlimVersion::V0_5))
                    } else {
                        (r matches Err(NewSlimConnectionError::SlimVersionReadError(
                            SlimVersionReadError::NotRecognized(m),
                        )) && m@ == token)
                    }
                },
            },
    {
        let len = reader.as_str().unicode_len();
        if len < 13 {
            return Err(NewSlimConnectionError::UnexpectedEof);
        }
        let greeting = substring(reader.as_str(), 0, 13);
        proof {
            assert(greeting@ =~= reader@.take(13));
            reveal_strlit("V0.3");
            reveal_strlit("V0.4");
            reveal_strlit("V0.5");
            assert("V0.3"@[3] == '3' && "V0.4"@[3] == '4' && "V0.5"@[3] == '5');
            assert("V0.3"@ != "V0.4"@ && "V0.3"@ != "V0.5"@ && "V0.4"@ != "V0.5"@);
        }
        let version = match SlimVersion::from_str(greeting.as_str()) {
            Ok(v) => v,
            Err(e) => {
                return Err(NewSlimConnectionError::SlimVersionReadError(e));
            },
        };
        Ok(SlimConnection { reader, pos: 13, writer: String::new(), version, closed: false })
    }

    /// The negotiated version.
    pub fn version(&self) -> (r: SlimVersion)
        ensures
            r == self.spec_version(),
    {
        self.version
    }

    /// The text that must be handed to the transport.
    pub fn written_text(&self) -> (r: &str)
        ensures
            r@ == self.written(),
    {
        self.writer.as_str()
    }

    /// One round trip: append the encoded batch to the outgoing text, then
    /// decode exactly one result batch at the cursor.
    pub fn send_instructions(&mut self, data: &Vec<Instruction>) -> (r: Result<
        Vec<InstructionResult>,
        SendInstructionsError,
    >)
        requires
            old(self).wf(),
            !old(self).is_closed(),
        ensures
            final(self).wf(),
            final(self).received() == old(self).received(),
            final(self).spec_version() == old(self).spec_version(),
            !final(self).is_closed(),
            final(self).written() == old(self).written() + spec_enc_instruction_list(
                data.deep_view(),
            ),
            match spec_read_result_list(old(self).received().skip(old(self).consumed())) {
                Some(v) => r is Ok && r->Ok_0.deep_view() == v.0 && final(self).consumed() == old(
                    self,
                ).consumed() + v.1,
                None => r is Err && final(self).consumed() == old(self).consumed(),
            },
    {
        let frame = instructions_to_slim_string(data);
        self.writer.append(frame.as_str());
        match read_result_list(self.reader.as_str(), self.pos) {
            Ok((results, end)) => {
                self.pos = end;
                Ok(results)
            },
            Err(e) => Err(SendInstructionsError::FromSlimReaderError(e)),
        }
    }

    /// Send the teardown marker.  The marker goes out exactly once however
    /// often the connection is closed: closing an already-closed connection
    /// changes nothing.
    pub fn close(&mut self)
        ensures
            final(self).received() == old(self).received(),
            final(self).consumed() == old(self).consumed(),
            final(self).spec_version() == old(self).spec_version(),
            final(self).is_closed(),
            final(self).written() == if old(self).is_closed() {
                old(self).written()
            } else {
                old(self).written() + spec_enc_str("bye"@)
            },
            old(self).wf() ==> final(self).wf(),
    {
        if !self.closed {
            let bye = "bye".to_slim_string();
            self.writer.append(bye.as_str());
            self.closed = true;
        }
    }
}

} // verus!
