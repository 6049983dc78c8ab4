use vstd::prelude::*;
use crate::account::{AccountPair, SessionInfo};

verus! {

/// The kinds of sign-in activity.
pub enum SignKind {
    Photo,
    Normal,
    QrCode,
    Gesture,
    Location,
    Signcode,
    Unknown,
}

/// The signer that carries out a sign-in of a given kind.
pub enum SignerChoice {
    /// Signs with a picture the user picks.
    Photo,
    /// Signs without further input.
    NormalOrRaw,
    /// Signs with the gesture or code the event carries.
    GestureOrSigncode,
    /// Signs at the location the event names.
    Location,
    /// Signs with the code of a scanned QR code.
    QrCode,
}

/// Name under which the front end reports each kind of sign-in.
pub open spec fn sign_type_text(kind: Option<SignKind>) -> Seq<char> {
    match kind {
        Some(SignKind::Photo) => "photo"@,
        Some(SignKind::Normal) => "normal"@,
        Some(SignKind::QrCode) => "qrcode"@,
        Some(SignKind::Gesture) => "gesture"@,
        Some(SignKind::Location) => "location"@,
        Some(SignKind::Signcode) => "signcode"@,
        Some(SignKind::Unknown) => "unknown"@,
        None => "unknown"@,
    }
}

/// The kind of the prepared sign-in, as the front end names it; "unknown"
/// when none is prepared.
pub fn get_sign_type(kind: Option<SignKind>) -> (t: String)
    ensures
        t@ == sign_type_text(kind),
{
    let text: &str = match kind {
        Some(SignKind::Photo) => "photo",
        Some(SignKind::Normal) => "normal",
        Some(SignKind::QrCode) => "qrcode",
        Some(SignKind::Gesture) => "gesture",
        Some(SignKind::Location) => "location",
        Some(SignKind::Signcode) => "signcode",
        Some(SignKind::Unknown) => "unknown",
        None => "unknown",
    };
    String::from_str(text)
}

/// Event on which the front end hands over the input for each kind of
/// sign-in.
pub open spec fn sign_event_text(kind: SignKind) -> Seq<char> {
    match kind {
        SignKind::Photo => "sign:photo"@,
        SignKind::Normal => "sign:normal"@,
        SignKind::QrCode => "sign:qrcode:enc"@,
        SignKind::Gesture => "sign:gesture"@,
        SignKind::Location => "sign:location"@,
        SignKind::Signcode => "sign:signcode"@,
        SignKind::Unknown => "sign:unknown"@,
    }
}

/// The event a sign-in of kind `kind` listens to.
pub fn sign_event_name(kind: &SignKind) -> (name: String)
    ensures
        name@ == sign_event_text(*kind),
        !(*kind is QrCode) ==> name@ == "sign:"@ + sign_type_text(Some(*kind)),
        *kind is QrCode ==> name@ == "sign:"@ + sign_type_text(Some(*kind)) + ":enc"@,
{
    proof {
        lemma_sign_event_is_type_event(*kind);
    }
    let text: &str = match kind {
        SignKind::Photo => "sign:photo",
        SignKind::Normal => "sign:normal",
        SignKind::QrCode => "sign:qrcode:enc",
        SignKind::Gesture => "sign:gesture",
        SignKind::Location => "sign:location",
        SignKind::Signcode => "sign:signcode",
        SignKind::Unknown => "sign:unknown",
    };
    String::from_str(text)
}

/// Law: each kind listens on `sign:` followed by the name under which the
/// front end reports that kind (the QR code sign-in on its `:enc` event).
pub proof fn lemma_sign_event_is_type_event(kind: SignKind)
    ensures
        !(kind is QrCode) ==> sign_event_text(kind) == "sign:"@ + sign_type_text(Some(kind)),
        kind is QrCode ==> sign_event_text(kind) == "sign:"@ + sign_type_text(Some(kind)) + ":enc"@,
{
    reveal_strlit("sign:");
    reveal_strlit(":enc");
    reveal_strlit("photo");
    reveal_strlit("normal");
    reveal_strlit("qrcode");
    reveal_strlit("gesture");
    reveal_strlit("location");
    reveal_strlit("signcode");
    reveal_strlit("unknown");
    reveal_strlit("sign:photo");
    reveal_strlit("sign:normal");
    reveal_strlit("sign:qrcode:enc");
    reveal_strlit("sign:gesture");
    reveal_strlit("sign:location");
    reveal_strlit("sign:signcode");
    reveal_strlit("sign:unknown");
    match kind {
        SignKind::Photo => assert(sign_event_text(kind) =~= "sign:"@ + sign_type_text(Some(kind))),
        SignKind::Normal => assert(sign_event_text(kind) =~= "sign:"@ + sign_type_text(Some(kind))),
        SignKind::QrCode => assert(sign_event_text(kind) =~= "sign:"@ + sign_type_text(Some(kind)) + ":enc"@),
        SignKind::Gesture => assert(sign_event_text(kind) =~= "sign:"@ + sign_type_text(Some(kind))),
        SignKind::Location => assert(sign_event_text(kind) =~= "sign:"@ + sign_type_text(Some(kind))),
        SignKind::Signcode => assert(sign_event_text(kind) =~= "sign:"@ + sign_type_text(Some(kind))),
        SignKind::Unknown => assert(sign_event_text(kind) =~= "sign:"@ + sign_type_text(Some(kind))),
    }
}

/// Law: different kinds of sign-in listen on different events, so no
/// listener receives the input meant for another kind.
pub proof fn lemma_sign_events_distinct(k1: SignKind, k2: SignKind)
    ensures
        k1 != k2 ==> sign_event_text(k1) != sign_event_text(k2),
{
    reveal_strlit("sign:");
    reveal_strlit(":enc");
    reveal_strlit("photo");
    reveal_strlit("normal");
    reveal_strlit("qrcode");
    reveal_strlit("gesture");
    reveal_strlit("location");
    reveal_strlit("signcode");
    reveal_strlit("unknown");
    reveal_strlit("sign:photo");
    reveal_strlit("sign:normal");
    reveal_strlit("sign:qrcode:enc");
    reveal_strlit("sign:gesture");
    reveal_strlit("sign:location");
    reveal_strlit("sign:signcode");
    reveal_strlit("sign:unknown");
    if k1 != k2 {
        let a = sign_event_text(k1);
        let b = sign_event_text(k2);
        if a.len() == b.len() {
            assert(a[5] != b[5]);
        }
    }
}

/// Which signer serves each kind: unknown kinds are signed as normal ones,
/// and gesture and sign-code sign-ins share one signer.
pub open spec fn signer_of(kind: SignKind) -> SignerChoice {
    match kind {
        SignKind::Photo => SignerChoice::Photo,
        SignKind::Normal => SignerChoice::NormalOrRaw,
        SignKind::QrCode => SignerChoice::QrCode,
        SignKind::Gesture => SignerChoice::GestureOrSigncode,
        SignKind::Location => SignerChoice::Location,
        SignKind::Signcode => SignerChoice::GestureOrSigncode,
        SignKind::Unknown => SignerChoice::NormalOrRaw,
    }
}

/// The signer that carries out a sign-in of kind `kind`.
pub fn signer_for(kind: &SignKind) -> (c: SignerChoice)
    ensures
        c == signer_of(*kind),
{
    match kind {
        SignKind::Photo => SignerChoice::Photo,
        SignKind::Normal => SignerChoice::NormalOrRaw,
        SignKind::QrCode => SignerChoice::QrCode,
        SignKind::Gesture => SignerChoice::GestureOrSigncode,
        SignKind::Location => SignerChoice::Location,
        SignKind::Signcode => SignerChoice::GestureOrSigncode,
        SignKind::Unknown => SignerChoice::NormalOrRaw,
    }
}

/// The payload by which the front end stops a listener: the JSON string
/// `"quit"`, quotes included.
pub open spec fn quit_payload() -> Seq<char> {
    seq!['"', 'q', 'u', 'i', 't', '"']
}

/// Whether an event payload asks the listener to stop.
pub fn is_quit_payload(payload: &str) -> (b: bool)
    ensures
        b == (payload@ == quit_payload()),
{
    let quit: String = String::from_str("\"quit\"");
    proof {
        reveal_strlit("\"quit\"");
    }
    assert(quit@ =~= quit_payload());
    payload.to_owned() == quit
}

/// `s` without its leading double quotes.
pub open spec fn strip_leading_quotes(s: Seq<char>) -> Seq<char>
    decreases s.len(),
{
    if s.len() > 0 && s[0] == '"' {
        strip_leading_quotes(s.skip(1))
    } else {
        s
    }
}

/// `s` without its trailing double quotes.
pub open spec fn strip_trailing_quotes(s: Seq<char>) -> Seq<char>
    decreases s.len(),
{
    if s.len() > 0 && s.last() == '"' {
        strip_trailing_quotes(s.drop_last())
    } else {
        s
    }
}

/// `s` without the double quotes at either end.
pub open spec fn strip_quotes(s: Seq<char>) -> Seq<char> {
    strip_trailing_quotes(strip_leading_quotes(s))
}

proof fn lemma_strip_leading(s: Seq<char>)
    ensures
        exists|k: int|
            0 <= k <= s.len() && strip_leading_quotes(s) == s.skip(k) && forall|i: int|
                0 <= i < k ==> #[trigger] s[i] == '"',
        strip_leading_quotes(s).len() == 0 || strip_leading_quotes(s)[0] != '"',
    decreases s.len(),
{
    if s.len() > 0 && s[0] == '"' {
        let t = s.skip(1);
        lemma_strip_leading(t);
        let k = choose|k: int|
            0 <= k <= t.len() && strip_leading_quotes(t) == t.skip(k) && forall|i: int|
                0 <= i < k ==> #[trigger] t[i] == '"';
        assert(t.skip(k) =~= s.skip(k + 1));
        assert forall|i: int| 0 <= i < k + 1 implies #[trigger] s[i] == '"' by {
            if i > 0 {
                assert(s[i] == t[i - 1]);
            }
        }
    } else {
        assert(s.skip(0) =~= s);
    }
}

proof fn lemma_strip_trailing(s: Seq<char>)
    ensures
        exists|k: int|
            0 <= k <= s.len() && strip_trailing_quotes(s) == s.take(k) && forall|i: int|
                k <= i < s.len() ==> #[trigger] s[i] == '"',
        strip_trailing_quotes(s).len() == 0 || strip_trailing_quotes(s).last() != '"',
    decreases s.len(),
{
    if s.len() > 0 && s.last() == '"' {
        let t = s.drop_last();
        lemma_strip_trailing(t);
        let k = choose|k: int|
            0 <= k <= t.len() && strip_trailing_quotes(t) == t.take(k) && forall|i: int|
                k <= i < t.len() ==> #[trigger] t[i] == '"';
        assert(t.take(k) =~= s.take(k));
        assert forall|i: int| k <= i < s.len() implies #[trigger] s[i] == '"' by {
            if i < t.len() {
                assert(s[i] == t[i]);
            }
        }
    } else {
        assert(s.take(s.len() as int) =~= s);
    }
}

/// Law: stripping the quotes keeps a stretch of the text, cuts off only
/// double quotes, leaves none at either end, and stripping again changes
/// nothing.
pub proof fn lemma_strip_quotes(s: Seq<char>)
    ensures
        exists|a: int, b: int|
            0 <= a <= b <= s.len() && strip_quotes(s) == s.subrange(a, b) && (forall|i: int|
                0 <= i < a ==> #[trigger] s[i] == '"') && (forall|i: int|
                b <= i < s.len() ==> #[trigger] s[i] == '"'),
        strip_quotes(s).len() == 0 || (strip_quotes(s)[0] != '"' && strip_quotes(s).last() != '"'),
        strip_quotes(strip_quotes(s)) == strip_quotes(s),
{
    lemma_strip_leading(s);
    let h = strip_leading_quotes(s);
    lemma_strip_trailing(h);
    let r = strip_trailing_quotes(h);
    let a = choose|k: int|
        0 <= k <= s.len() && strip_leading_quotes(s) == s.skip(k) && forall|i: int|
            0 <= i < k ==> #[trigger] s[i] == '"';
    let kb = choose|k: int|
        0 <= k <= h.len() && strip_trailing_quotes(h) == h.take(k) && forall|i: int|
            k <= i < h.len() ==> #[trigger] h[i] == '"';
    assert(r =~= s.subrange(a, a + kb));
    assert forall|i: int| a + kb <= i < s.len() implies #[trigger] s[i] == '"' by {
        assert(s[i] == h[i - a]);
    }
    if r.len() > 0 {
        assert(r[0] == h[0]);
    }
    assert(strip_leading_quotes(r) == r);
    assert(strip_trailing_quotes(r) == r);
}

/// The text of an event payload with the double quotes at both ends cut
/// off (how a JSON string payload is read as plain text).
pub fn trim_quotes(payload: &str) -> (r: String)
    ensures
        r@ == strip_quotes(payload@),
{
    let ghost s = payload@;
    let len: usize = payload.unicode_len();
    let mut a: usize = 0;
    assert(s.skip(0) =~= s);
    while a < len
        invariant
            len == s.len(),
            payload@ == s,
            a <= len,
            strip_leading_quotes(s.skip(a as int)) == strip_leading_quotes(s),
        ensures
            a <= len,
            strip_leading_quotes(s.skip(a as int)) == strip_leading_quotes(s),
            a == len || s[a as int] != '"',
        decreases len - a,
    {
        if payload.get_char(a) != '"' {
            break;
        }
        assert(s.skip(a as int).skip(1) =~= s.skip(a + 1));
        a = a + 1;
    }
    let ghost head = s.skip(a as int);
    assert(strip_leading_quotes(head) == head) by {
        if head.len() > 0 {
            assert(head[0] == s[a as int]);
        }
    }
    let mut b: usize = len;
    assert(s.subrange(a as int, b as int) =~= head);
    while b > a
        invariant
            len == s.len(),
            payload@ == s,
            a <= b <= len,
            strip_trailing_quotes(s.subrange(a as int, b as int)) == strip_trailing_quotes(head),
        ensures
            a <= b <= len,
            strip_trailing_quotes(s.subrange(a as int, b as int)) == strip_trailing_quotes(head),
            b == a || s[b - 1] != '"',
        decreases b - a,
    {
        if payload.get_char(b - 1) != '"' {
            break;
        }
        assert(s.subrange(a as int, b as int).drop_last() =~= s.subrange(a as int, b - 1));
        b = b - 1;
    }
    let ghost kept = s.subrange(a as int, b as int);
    assert(strip_trailing_quotes(kept) == kept) by {
        if kept.len() > 0 {
            assert(kept.last() == s[b - 1]);
        }
    }
    let part: &str = payload.substring_char(a, b);
    String::from_str(part)
}

/// The QR code a QR sign-in event carries: its payload without the
/// surrounding quotes, or `None` when that is empty and the code has to be
/// read from the screen instead.
pub fn enc_from_payload(payload: &str) -> (enc: Option<String>)
    ensures
        enc is None <==> strip_quotes(payload@).len() == 0,
        enc matches Some(e) ==> e@ == strip_quotes(payload@),
{
    let text = trim_quotes(payload);
    if text.as_str().unicode_len() == 0 {
        None
    } else {
        Some(text)
    }
}

// ---------------------------------------------------------------------
// Results of a sign-in and what the front end is told of them.
// ---------------------------------------------------------------------

/// How a sign-in ended for one account.
pub enum SignOutcome {
    Susses,
    Fail { msg: String },
}

/// What a sign-in result event carries: the account identifier alone, or
/// the identifier and a message (sent as a two-element list).
pub enum EventPayload {
    Uid(String),
    UidAndMessage(String, String),
}

/// An event sent to the front end: its name and its payload.
pub struct SignEvent {
    pub name: String,
    pub payload: EventPayload,
}

/// The event that reports `outcome` for account `uid`: success carries the
/// identifier, failure the identifier and the message.
pub open spec fn outcome_event_ok(uid: Seq<char>, outcome: SignOutcome, e: SignEvent) -> bool {
    match outcome {
        SignOutcome::Susses => e.name@ == "sign:susses"@ && (e.payload matches EventPayload::Uid(u)
            && u@ == uid),
        SignOutcome::Fail { msg } => e.name@ == "sign:fail"@ && (e.payload matches EventPayload::UidAndMessage(
            u,
            m,
        ) && u@ == uid && m@ == msg@),
    }
}

/// The event that tells the front end how the sign-in of `uid` ended.
pub fn result_event(uid: &str, outcome: &SignOutcome) -> (e: SignEvent)
    ensures
        outcome_event_ok(uid@, *outcome, e),
{
    match outcome {
        SignOutcome::Susses => SignEvent {
            name: String::from_str("sign:susses"),
            payload: EventPayload::Uid(String::from_str(uid)),
        },
        SignOutcome::Fail { msg } => SignEvent {
            name: String::from_str("sign:fail"),
            payload: EventPayload::UidAndMessage(String::from_str(uid), msg.clone()),
        },
    }
}

/// The events that report a whole batch of sign-in results, one per
/// result and in the same order.
pub fn handle_results(results: &Vec<(String, SignOutcome)>) -> (events: Vec<SignEvent>)
    ensures
        events.len() == results.len(),
        forall|i: int|
            0 <= i < events.len() ==> outcome_event_ok(
                results@[i].0@,
                results@[i].1,
                #[trigger] events@[i],
            ),
{
    let mut events: Vec<SignEvent> = Vec::new();
    let mut i: usize = 0;
    while i < results.len()
        invariant
            0 <= i <= results.len(),
            events.len() == i,
            forall|k: int|
                0 <= k < i ==> outcome_event_ok(results@[k].0@, results@[k].1, #[trigger] events@[k]),
        decreases results.len() - i,
    {
        let e = result_event(results[i].0.as_str(), &results[i].1);
        events.push(e);
        i = i + 1;
    }
    events
}

// ---------------------------------------------------------------------
// Activities of a course.
// ---------------------------------------------------------------------

/// An activity of a course: a sign-in (`sign`, with whether it is still
/// open) or anything else.
pub enum Activity<T> {
    RawSign { sign: T, valid: bool },
    Other,
}

/// The open sign-ins among `acts`, in order.
pub open spec fn valid_signs<T>(acts: Seq<Activity<T>>) -> Seq<T>
    decreases acts.len(),
{
    if acts.len() == 0 {
        Seq::empty()
    } else {
        let p = valid_signs(acts.drop_last());
        match acts.last() {
            Activity::RawSign { sign, valid } => if valid {
                p.push(sign)
            } else {
                p
            },
            Activity::Other => p,
        }
    }
}

/// The open sign-ins of a course, in the order listed.
pub fn list_course_activities<T>(activities: Vec<Activity<T>>) -> (signs: Vec<T>)
    ensures
        signs@ == valid_signs(activities@),
        exists|idx: Seq<int>| open_signs_from(activities@, signs@, idx),
{
    let ghost all = activities@;
    let total: usize = activities.len();
    let mut rest = activities;
    let mut signs: Vec<T> = Vec::new();
    let mut done: usize = 0;
    let ghost mut idx: Seq<int> = Seq::empty();
    while rest.len() > 0
        invariant
            done <= all.len(),
            all.len() == total,
            rest@ == all.skip(done as int),
            signs@ == valid_signs(all.take(done as int)),
            idx.len() == signs.len(),
            forall|j: int| 0 <= j < idx.len() ==> 0 <= #[trigger] idx[j] < done,
            forall|j: int, l: int| 0 <= j < l < idx.len() ==> idx[j] < idx[l],
            forall|j: int|
                0 <= j < idx.len() ==> all[#[trigger] idx[j]] == (Activity::RawSign {
                    sign: signs@[j],
                    valid: true,
                }),
            forall|k: int| 0 <= k < done && is_open(#[trigger] all[k]) ==> idx.contains(k),
        decreases rest.len(),
    {
        assert(rest@.len() == all.len() - done);
        let act = rest.remove(0);
        let ghost a0 = act;
        let ghost before = idx;
        proof {
            assert(all.take(done + 1).drop_last() =~= all.take(done as int));
            assert(all[done as int] == act);
        }
        match act {
            Activity::RawSign { sign, valid } => {
                if valid {
                    signs.push(sign);
                    proof {
                        idx = idx.push(done as int);
                    }
                }
            },
            Activity::Other => {},
        }
        proof {
            assert(rest@ =~= all.skip(done + 1));
            assert forall|k: int| 0 <= k < done + 1 && is_open(#[trigger] all[k]) implies idx.contains(k) by {
                if k < done {
                    let w = choose|w: int| 0 <= w < before.len() && before[w] == k;
                    assert(idx[w] == k);
                } else {
                    assert(idx[idx.len() - 1] == k);
                }
            }
        }
        done = done + 1;
    }
    assert(all.take(all.len() as int) =~= all);
    assert(open_signs_from(all, signs@, idx));
    signs
}

/// `a` is a sign-in that is still open.
pub open spec fn is_open<T>(a: Activity<T>) -> bool {
    a matches Activity::RawSign { valid, .. } && valid
}

/// `signs` holds, in order, the sign of every open sign-in among `acts`
/// and nothing else; `idx` gives the position in `acts` of each.
pub open spec fn open_signs_from<T>(acts: Seq<Activity<T>>, signs: Seq<T>, idx: Seq<int>) -> bool {
    &&& idx.len() == signs.len()
    &&& forall|j: int| 0 <= j < idx.len() ==> 0 <= #[trigger] idx[j] < acts.len()
    &&& forall|j: int, l: int| 0 <= j < l < idx.len() ==> idx[j] < idx[l]
    &&& forall|j: int|
        0 <= j < idx.len() ==> acts[#[trigger] idx[j]] == (Activity::RawSign { sign: signs[j], valid: true })
    &&& forall|k: int| 0 <= k < acts.len() && is_open(#[trigger] acts[k]) ==> idx.contains(k)
}

/// `r` holds, in order, every open sign-in among `acts` with the accounts
/// taking part in it, and nothing else; `idx` gives the position in `acts`
/// of each.
pub open spec fn open_pairs_from<T>(
    acts: Seq<(Activity<T>, Vec<SessionInfo>)>,
    r: Seq<RawSignPair<T>>,
    idx: Seq<int>,
) -> bool {
    &&& idx.len() == r.len()
    &&& forall|j: int| 0 <= j < idx.len() ==> 0 <= #[trigger] idx[j] < acts.len()
    &&& forall|j: int, l: int| 0 <= j < l < idx.len() ==> idx[j] < idx[l]
    &&& forall|j: int|
        0 <= j < idx.len() ==> acts[#[trigger] idx[j]].0 == (Activity::RawSign { sign: r[j].sign, valid: true })
            && shows_accounts(acts[idx[j]].1@, r[j].account_pairs@)
    &&& forall|k: int| 0 <= k < acts.len() && is_open(#[trigger] acts[k].0) ==> idx.contains(k)
}

/// Law: the open sign-ins listed for a course are, in order, the sign of
/// every entry that is an open sign-in, and nothing else: a closed sign-in
/// or another activity never appears.
pub proof fn lemma_valid_signs_open<T>(acts: Seq<Activity<T>>)
    ensures
        exists|idx: Seq<int>| open_signs_from(acts, valid_signs(acts), idx),
    decreases acts.len(),
{
    if acts.len() == 0 {
        assert(open_signs_from(acts, valid_signs(acts), Seq::<int>::empty()));
    } else {
        let d = acts.drop_last();
        let n = acts.len() - 1;
        lemma_valid_signs_open(d);
        let i0 = choose|i0: Seq<int>| open_signs_from(d, valid_signs(d), i0);
        let p = valid_signs(d);
        let out = valid_signs(acts);
        assert forall|k: int| 0 <= k < n implies d[k] == acts[k] by {}
        if is_open(acts[n]) {
            let idx = i0.push(n);
            assert forall|j: int| 0 <= j < idx.len() implies acts[#[trigger] idx[j]] == (Activity::RawSign {
                sign: out[j],
                valid: true,
            }) by {
                if j < i0.len() {
                    assert(out[j] == p[j]);
                    assert(idx[j] == i0[j]);
                }
            }
            assert forall|k: int| 0 <= k < acts.len() && is_open(#[trigger] acts[k]) implies idx.contains(k) by {
                if k < n {
                    assert(is_open(d[k]));
                    let w = choose|w: int| 0 <= w < i0.len() && i0[w] == k;
                    assert(idx[w] == k);
                } else {
                    assert(idx[idx.len() - 1] == k);
                }
            }
            assert(open_signs_from(acts, out, idx));
        } else {
            assert(out == p);
            assert forall|k: int| 0 <= k < acts.len() && is_open(#[trigger] acts[k]) implies i0.contains(k) by {
                assert(k < n);
                assert(is_open(d[k]));
            }
            assert(open_signs_from(acts, out, i0));
        }
    }
}

/// Law: the sign-ins listed with their participants are, in order, the
/// same as those listed for the activities alone.
pub proof fn lemma_groups_match_signs<T>(acts: Seq<(Activity<T>, Vec<SessionInfo>)>)
    ensures
        valid_sign_groups(acts).map_values(|g: (T, Seq<SessionInfo>)| g.0) == valid_signs(
            acts.map_values(|a: (Activity<T>, Vec<SessionInfo>)| a.0),
        ),
    decreases acts.len(),
{
    let f = |a: (Activity<T>, Vec<SessionInfo>)| a.0;
    let g = |x: (T, Seq<SessionInfo>)| x.0;
    if acts.len() == 0 {
        assert(valid_sign_groups(acts).map_values(g) =~= valid_signs(acts.map_values(f)));
    } else {
        let d = acts.drop_last();
        lemma_groups_match_signs(d);
        assert(d.map_values(f) =~= acts.map_values(f).drop_last());
        let p = valid_sign_groups(d);
        match acts.last().0 {
            Activity::RawSign { sign, valid } => {
                if valid {
                    assert(valid_sign_groups(acts) == p.push((sign, acts.last().1@)));
                    assert(p.push((sign, acts.last().1@)).map_values(g) =~= p.map_values(g).push(sign));
                } else {
                    assert(valid_sign_groups(acts) == p);
                }
            },
            Activity::Other => {
                assert(valid_sign_groups(acts) == p);
            },
        }
    }
}

/// An open sign-in and the accounts that take part in it.
pub struct RawSignPair<T> {
    pub sign: T,
    pub account_pairs: Vec<AccountPair>,
}

/// The open sign-ins among `acts` with their participants, in order.
pub open spec fn valid_sign_groups<T>(acts: Seq<(Activity<T>, Vec<SessionInfo>)>) -> Seq<
    (T, Seq<SessionInfo>),
>
    decreases acts.len(),
{
    if acts.len() == 0 {
        Seq::empty()
    } else {
        let p = valid_sign_groups(acts.drop_last());
        match acts.last().0 {
            Activity::RawSign { sign, valid } => if valid {
                p.push((sign, acts.last().1@))
            } else {
                p
            },
            Activity::Other => p,
        }
    }
}

/// `pairs` shows each of `infos` in order.
pub open spec fn shows_accounts(infos: Seq<SessionInfo>, pairs: Seq<AccountPair>) -> bool {
    pairs.len() == infos.len() && forall|i: int|
        0 <= i < pairs.len() ==> #[trigger] pairs[i].uid@ == infos[i].uid@ && pairs[i].name@
            == infos[i].stu_name@ && pairs[i].avatar@ == infos[i].avatar@
}

/// The account pairs shown for `infos`, in order.
pub fn account_pairs_of(infos: &Vec<SessionInfo>) -> (pairs: Vec<AccountPair>)
    ensures
        shows_accounts(infos@, pairs@),
{
    let mut pairs: Vec<AccountPair> = Vec::new();
    let mut i: usize = 0;
    while i < infos.len()
        invariant
            0 <= i <= infos.len(),
            pairs.len() == i,
            forall|k: int|
                0 <= k < i ==> #[trigger] pairs@[k].uid@ == infos@[k].uid@ && pairs@[k].name@
                    == infos@[k].stu_name@ && pairs@[k].avatar@ == infos@[k].avatar@,
        decreases infos.len() - i,
    {
        pairs.push(AccountPair::from_internal(&infos[i]));
        i = i + 1;
    }
    pairs
}

/// The open sign-ins of all courses with the accounts taking part in each,
/// in the order listed.
pub fn list_all_activities<T>(activities: Vec<(Activity<T>, Vec<SessionInfo>)>) -> (r: Vec<
    RawSignPair<T>,
>)
    ensures
        r.len() == valid_sign_groups(activities@).len(),
        forall|i: int|
            0 <= i < r.len() ==> (#[trigger] r@[i]).sign == valid_sign_groups(activities@)[i].0
                && shows_accounts(valid_sign_groups(activities@)[i].1, r@[i].account_pairs@),
        exists|idx: Seq<int>| open_pairs_from(activities@, r@, idx),
{
    let ghost all = activities@;
    let total: usize = activities.len();
    let mut rest = activities;
    let mut r: Vec<RawSignPair<T>> = Vec::new();
    let mut done: usize = 0;
    let ghost mut idx: Seq<int> = Seq::empty();
    while rest.len() > 0
        invariant
            done <= all.len(),
            all.len() == total,
            rest@ == all.skip(done as int),
            r.len() == valid_sign_groups(all.take(done as int)).len(),
            forall|i: int|
                0 <= i < r.len() ==> (#[trigger] r@[i]).sign == valid_sign_groups(
                    all.take(done as int),
                )[i].0 && shows_accounts(
                    valid_sign_groups(all.take(done as int))[i].1,
                    r@[i].account_pairs@,
                ),
            idx.len() == r.len(),
            forall|j: int| 0 <= j < idx.len() ==> 0 <= #[trigger] idx[j] < done,
            forall|j: int, l: int| 0 <= j < l < idx.len() ==> idx[j] < idx[l],
            forall|j: int|
                0 <= j < idx.len() ==> all[#[trigger] idx[j]].0 == (Activity::RawSign {
                    sign: r@[j].sign,
                    valid: true,
                }) && shows_accounts(all[idx[j]].1@, r@[j].account_pairs@),
            forall|k: int| 0 <= k < done && is_open(#[trigger] all[k].0) ==> idx.contains(k),
        decreases rest.len(),
    {
        assert(rest@.len() == all.len() - done);
        let (act, infos) = rest.remove(0);
        let ghost before = idx;
        let ghost prev = valid_sign_groups(all.take(done as int));
        proof {
            assert(all.take(done + 1).drop_last() =~= all.take(done as int));
            assert(all[done as int] == (act, infos));
        }
        match act {
            Activity::RawSign { sign, valid } => {
                if valid {
                    let pairs = account_pairs_of(&infos);
                    r.push(RawSignPair { sign, account_pairs: pairs });
                    proof {
                        idx = idx.push(done as int);
                    }
                    assert forall|i: int| 0 <= i < r.len() implies (#[trigger] r@[i]).sign
                        == valid_sign_groups(all.take(done + 1))[i].0 && shows_accounts(
                        valid_sign_groups(all.take(done + 1))[i].1,
                        r@[i].account_pairs@,
                    ) by {
                        if i < prev.len() {
                            assert(valid_sign_groups(all.take(done + 1))[i] == prev[i]);
                        }
                    }
                }
            },
            Activity::Other => {},
        }
        proof {
            assert(rest@ =~= all.skip(done + 1));
            assert forall|k: int| 0 <= k < done + 1 && is_open(#[trigger] all[k].0) implies idx.contains(k) by {
                if k < done {
                    let w = choose|w: int| 0 <= w < before.len() && before[w] == k;
                    assert(idx[w] == k);
                } else {
                    assert(idx[idx.len() - 1] == k);
                }
            }
        }
        done = done + 1;
    }
    assert(all.take(all.len() as int) =~= all);
    assert(open_pairs_from(all, r@, idx));
    r
}

} // verus!
