//! Codec preference state: which CELT/Opus codec version the server currently
//! advertises, and the message describing it.

use vstd::prelude::*;

verus! {

/// The codec version the server advertises to clients, together with which of
/// the two negotiated CELT slots (alpha / beta) is currently preferred.
pub struct CodecState {
    pub opus: bool,
    pub alpha: i32,
    pub beta: i32,
    pub prefer_alpha: bool,
}

/// A `CodecVersion` control message body: the payload the server broadcasts
/// whenever the advertised codec version changes.
#[derive(Clone, Copy, Debug, PartialEq, Eq, Structural)]
pub struct CodecVersionMsg {
    pub alpha: i32,
    pub beta: i32,
    pub opus: bool,
    pub prefer_alpha: bool,
}

impl Default for CodecState {
    /// A fresh server prefers Opus and has no CELT version negotiated yet.
    fn default() -> (r: Self)
        ensures
            r.opus == true,
            r.alpha == 0,
            r.beta == 0,
            r.prefer_alpha == false,
    {
        Self { opus: true, alpha: 0, beta: 0, prefer_alpha: false }
    }
}

impl CodecState {
    /// The currently advertised version: the preferred slot's value.
    pub open spec fn spec_version(&self) -> i32 {
        if self.prefer_alpha {
            self.alpha
        } else {
            self.beta
        }
    }

    pub fn get_version(&self) -> (r: i32)
        ensures
            r == self.spec_version(),
    {
        if self.prefer_alpha {
            return self.alpha;
        }
        self.beta
    }

    /// The `CodecVersion` message matching this state.
    pub open spec fn spec_codec_msg(&self) -> CodecVersionMsg {
        CodecVersionMsg {
            alpha: self.alpha,
            beta: self.beta,
            opus: self.opus,
            prefer_alpha: self.prefer_alpha,
        }
    }

    /// Builds the `CodecVersion` message advertising the current state.
    pub fn get_codec_version(&self) -> (r: CodecVersionMsg)
        ensures
            r == self.spec_codec_msg(),
    {
        CodecVersionMsg {
            alpha: self.alpha,
            beta: self.beta,
            opus: self.opus,
            prefer_alpha: self.prefer_alpha,
        }
    }
}

} // verus!
