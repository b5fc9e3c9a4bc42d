use vstd::prelude::*;

verus! {

/// The value GL reports for a compile or link that succeeded.
pub const GL_TRUE: i32 = 1;

/// What `String::from_utf8_lossy` decodes from `bytes`.
pub uninterp spec fn utf8_lossy(bytes: Seq<u8>) -> Seq<char>;

/// `String::from_utf8_lossy`, made an owned `String`. Its contract: the
/// result is what `utf8_lossy` names for these bytes, and bytes that are all
/// ASCII decode each to the character of the same code. Not stated: how
/// other valid sequences decode, nor where U+FFFD replaces invalid ones.
#[verifier::external_body]
fn decode_lossy(bytes: &[u8]) -> (s: String)
    ensures
        s@ == utf8_lossy(bytes@),
        (forall|i: int| 0 <= i < bytes@.len() ==> bytes@[i] < 128) ==> s@ == bytes@.map_values(
            |b: u8| b as char,
        ),
{
    String::from_utf8_lossy(bytes).into_owned()
}

/// `k` is where the text of a NUL-terminated log ends: no NUL before it, and
/// a NUL at it unless the log ends there.
pub open spec fn is_text_end(log: Seq<u8>, k: int) -> bool {
    &&& 0 <= k <= log.len()
    &&& forall|j: int| 0 <= j < k ==> log[j] != 0
    &&& k < log.len() ==> log[k] == 0
}

/// Where the text of a NUL-terminated log ends.
pub open spec fn text_end(log: Seq<u8>) -> int {
    choose|k: int| is_text_end(log, k)
}

/// The message of an info log: its bytes up to the first NUL, decoded.
pub open spec fn log_message(log: Seq<u8>) -> Seq<char> {
    utf8_lossy(log.take(text_end(log)))
}

proof fn lemma_text_end_unique(log: Seq<u8>, k: int)
    requires
        is_text_end(log, k),
    ensures
        text_end(log) == k,
{
    let c = text_end(log);
    assert(is_text_end(log, c));
    if c < k {
        assert(log[c] != 0);
    } else if k < c {
        assert(log[k] != 0);
    }
}

/// The message of a GL info log: its bytes up to the first NUL, or all of
/// them where there is none, decoded from UTF-8 with invalid sequences
/// replaced.
pub fn info_log_message(log: &[u8]) -> (msg: String)
    ensures
        msg@ == log_message(log@),
{
    let mut k: usize = 0;
    while k < log.len() && log[k] != 0
        invariant
            k <= log@.len(),
            forall|j: int| 0 <= j < k ==> log@[j] != 0,
        decreases log@.len() - k,
    {
        k = k + 1;
    }
    proof {
        lemma_text_end_unique(log@, k as int);
    }
    let mut text: Vec<u8> = Vec::with_capacity(k);
    let mut i: usize = 0;
    while i < k
        invariant
            i <= k <= log@.len(),
            text@ == log@.take(i as int),
        decreases k - i,
    {
        text.push(log[i]);
        i = i + 1;
        assert(text@ =~= log@.take(i as int));
    }
    decode_lossy(text.as_slice())
}

/// What a shader compile or a program link comes to: the object when GL
/// reported `GL_TRUE`, else the message of its info log.
pub fn status_outcome(object: u32, status: i32, info_log: &[u8]) -> (r: Result<u32, String>)
    ensures
        status == GL_TRUE ==> r == Ok::<u32, String>(object),
        status != GL_TRUE ==> r is Err && r->Err_0@ == log_message(info_log@),
{
    if status != GL_TRUE {
        Err(info_log_message(info_log))
    } else {
        Ok(object)
    }
}

} // verus!
