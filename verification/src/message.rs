//! The payload carried by a block: an addressed text message. The chain
//! engine consumes it only through its canonical string form, which feeds
//! the block hash, and through the checkpoint byte format. Encrypting and
//! decrypting the text is the messaging collaborator's business and happens
//! outside this library; here the fields are plain strings.

use vstd::prelude::*;

verus! {

/// A message addressed from one key holder to another. `to` and `from`
/// hold hex-encoded public keys; `signing_key` holds the hex-encoded,
/// recipient-encrypted symmetric key once the text is encrypted.
#[derive(Clone)]
pub struct Message {
    pub to: String,
    pub from: String,
    pub text: String,
    pub signing_key: Option<String>,
}

/// The mathematical model of a message: its fields as character sequences.
pub struct MessageView {
    pub to: Seq<char>,
    pub from: Seq<char>,
    pub text: Seq<char>,
    pub signing_key: Option<Seq<char>>,
}

impl View for Message {
    type V = MessageView;

    open spec fn view(&self) -> MessageView {
        MessageView {
            to: self.to@,
            from: self.from@,
            text: self.text@,
            signing_key: match self.signing_key {
                Some(ref k) => Some(k@),
                None => None,
            },
        }
    }
}

/// The canonical string form of a message: a fixed field layout with an
/// empty slot where no signing key is set. This form feeds the block hash
/// and is identical for identical field contents.
pub open spec fn spec_canonical(m: MessageView) -> Seq<char> {
    "to:\n"@ + m.to + "\nfrom:\n"@ + m.from + "\ntext:\n"@ + m.text + "\n\nsigning_key:\n"@
        + (match m.signing_key {
        Some(k) => k,
        None => Seq::empty(),
    })
}

impl Message {
    /// Builds a cleartext message. The sender's and recipient's identities
    /// arrive already hex-encoded.
    pub fn new(to: String, from: String, text: String) -> (m: Message)
        ensures
            m@.to == to@,
            m@.from == from@,
            m@.text == text@,
            m@.signing_key is None,
    {
        Message { to, from, text, signing_key: None }
    }

    /// The canonical string form, used as hash input.
    pub fn to_string(&self) -> (r: String)
        ensures
            r@ == spec_canonical(self@),
    {
        let mut r = String::from_str("to:\n");
        r.append(self.to.as_str());
        r.append("\nfrom:\n");
        r.append(self.from.as_str());
        r.append("\ntext:\n");
        r.append(self.text.as_str());
        r.append("\n\nsigning_key:\n");
        match self.signing_key {
            Some(ref k) => {
                r.append(k.as_str());
            },
            None => {},
        }
        r
    }
}

impl PartialEq for Message {
    fn eq(&self, other: &Message) -> (r: bool) {
        self.to == other.to && self.from == other.from && self.text == other.text && (
        match (&self.signing_key, &other.signing_key) {
            (Some(a), Some(b)) => *a == *b,
            (None, None) => true,
            _ => false,
        })
    }
}

impl vstd::std_specs::cmp::PartialEqSpecImpl for Message {
    open spec fn obeys_eq_spec() -> bool {
        true
    }

    open spec fn eq_spec(&self, other: &Message) -> bool {
        self@ == other@
    }
}

} // verus!
