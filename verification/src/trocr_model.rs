//! The decisions of the text decoder: which tokens the model reads at each
//! step of greedy generation, and when generation stops.

use vstd::prelude::*;

verus! {

/// The most tokens that one recognition generates.
pub const MAX_NEW_TOKENS: usize = 128;

/// What the decoder model reads at one step: the token ids from position
/// `start_pos` on; the earlier ones it has already seen.
pub struct DecodeRequest {
    pub start_pos: usize,
    pub input_ids: Vec<u32>,
}

/// The state of one greedy generation: the tokens so far, starting with the
/// decoder's start token, and the number of tokens generated.
pub struct DecodeSession {
    token_ids: Vec<u32>,
    generated: usize,
    eos_token_id: u32,
    finished: bool,
}

impl DecodeSession {
    /// The tokens so far: the start token, then the generated ones in order.
    pub closed spec fn tokens(self) -> Seq<u32> {
        self.token_ids@
    }

    /// The token that ends a text.
    pub closed spec fn eos(self) -> u32 {
        self.eos_token_id
    }

    /// Generation is over: the end-of-text token came, or `MAX_NEW_TOKENS`
    /// tokens were generated.
    pub closed spec fn is_finished(self) -> bool {
        self.finished
    }

    /// The tokens generated so far.
    pub open spec fn generated_tokens(self) -> Seq<u32> {
        self.tokens().drop_first()
    }

    /// The state is consistent: one start token followed by the generated
    /// ones, finished exactly when the last generated token ends the text or
    /// the limit is reached, and never past the limit.
    pub closed spec fn wf(self) -> bool {
        &&& 1 <= self.token_ids@.len() == self.generated + 1
        &&& self.generated <= MAX_NEW_TOKENS
        &&& self.finished == (self.generated == MAX_NEW_TOKENS || (self.generated > 0
            && self.token_ids@.last() == self.eos_token_id))
        &&& forall|k: int| 1 <= k < self.token_ids@.len() - 1 ==> self.token_ids@[k] != self.eos_token_id
    }

    /// A generation that starts from the decoder's start token.
    pub fn new(decoder_start_token_id: u32, eos_token_id: u32) -> (s: Self)
        ensures
            s.wf(),
            s.tokens() == seq![decoder_start_token_id],
            s.eos() == eos_token_id,
            !s.is_finished(),
    {
        let mut token_ids = Vec::new();
        token_ids.push(decoder_start_token_id);
        DecodeSession { token_ids, generated: 0, eos_token_id, finished: false }
    }

    /// The tokens so far, the start token first.
    pub fn token_ids(&self) -> (t: &Vec<u32>)
        ensures
            t@ == self.tokens(),
    {
        &self.token_ids
    }

    /// Whether generation is over.
    pub fn finished(&self) -> (b: bool)
        ensures
            b == self.is_finished(),
    {
        self.finished
    }

    /// What the model reads at the next step, or `None` once generation is
    /// over. At the first step it reads every token so far; afterwards only
    /// the token generated last, at its position, since it has seen the
    /// others.
    pub fn next_request(&self) -> (r: Option<DecodeRequest>)
        requires
            self.wf(),
        ensures
            self.is_finished() <==> r is None,
            r matches Some(req) ==> {
                let context = if self.generated_tokens().len() >= 1 { 1 } else { self.tokens().len() as int };
                &&& req.start_pos == self.tokens().len() - context
                &&& req.input_ids@ == self.tokens().skip(req.start_pos as int)
            },
    {
        if self.finished {
            return None;
        }
        let len = self.token_ids.len();
        let context_size = if self.generated >= 1 { 1 } else { len };
        let start_pos = len.saturating_sub(context_size);
        let mut input_ids: Vec<u32> = Vec::new();
        let mut k = start_pos;
        while k < len
            invariant
                start_pos <= k <= len,
                len == self.token_ids@.len(),
                input_ids@ == self.token_ids@.subrange(start_pos as int, k as int),
            decreases len - k,
        {
            input_ids.push(self.token_ids[k]);
            k = k + 1;
            assert(input_ids@ =~= self.token_ids@.subrange(start_pos as int, k as int));
        }
        assert(self.token_ids@.subrange(start_pos as int, len as int) =~= self.token_ids@.skip(start_pos as int));
        Some(DecodeRequest { start_pos, input_ids })
    }

    /// Takes the token that the model produced at this step. Generation is
    /// over once it ends the text or the limit is reached.
    pub fn accept_token(&mut self, token: u32)
        requires
            old(self).wf(),
            !old(self).is_finished(),
        ensures
            final(self).wf(),
            final(self).tokens() == old(self).tokens().push(token),
            final(self).eos() == old(self).eos(),
            final(self).is_finished() == (token == old(self).eos()
                || final(self).generated_tokens().len() == MAX_NEW_TOKENS),
    {
        self.token_ids.push(token);
        self.generated = self.generated + 1;
        self.finished = token == self.eos_token_id || self.generated == MAX_NEW_TOKENS;
        assert(self.token_ids@.drop_first().len() == self.generated);
    }

    /// The candidate words of the recognition. The decoder's tokens are not
    /// turned into text yet: there are always the same two placeholders.
    pub fn candidates(&self) -> (c: Vec<String>)
        ensures
            c@.len() == 2,
            c@[0]@ == "Grah"@,
            c@[1]@ == "Grah"@,
    {
        let mut c: Vec<String> = Vec::new();
        c.push("Grah".to_owned());
        c.push("Grah".to_owned());
        c
    }
}

/// What every consistent generation satisfies: it starts from one start
/// token, generates at most `MAX_NEW_TOKENS` tokens, no generated token but
/// the last ends the text, and it is over exactly when the last generated
/// token ends the text or the limit is reached.
pub proof fn lemma_generation_bounds(s: DecodeSession)
    requires
        s.wf(),
    ensures
        s.tokens().len() == s.generated_tokens().len() + 1,
        s.generated_tokens().len() <= MAX_NEW_TOKENS,
        forall|k: int|
            0 <= k < s.generated_tokens().len() - 1 ==> #[trigger] s.generated_tokens()[k] != s.eos(),
        s.is_finished() == (s.generated_tokens().len() == MAX_NEW_TOKENS || (s.generated_tokens().len() > 0
            && s.generated_tokens().last() == s.eos())),
{
    let g = s.generated_tokens();
    assert forall|k: int| 0 <= k < g.len() - 1 implies #[trigger] g[k] != s.eos() by {
        assert(g[k] == s.tokens()[k + 1]);
    }
    if g.len() > 0 {
        assert(g.last() == s.tokens().last());
    }
}

} // verus!
