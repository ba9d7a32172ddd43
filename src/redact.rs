//! The secret-redaction pass applied to every accepted record.

use vstd::prelude::*;
use vstd::string::*;
use crate::ext::{lower_of, lowercase, regex_replace_all, regex_replaced};
use crate::model::{Attributes, LogEntry};
use crate::text::{seq_contains, str_contains};

verus! {

/// Sixteen-digit runs (card numbers).
pub open spec fn card_pattern() -> Seq<char> {
    r"\b\d{16}\b"@
}

/// `password=` or `password:` and the word that follows.
pub open spec fn password_pattern() -> Seq<char> {
    r"password[=:]\s*\S+"@
}

/// `token=` or `token:` and the word that follows.
pub open spec fn token_pattern() -> Seq<char> {
    r"token[=:]\s*\S+"@
}

/// E-mail addresses.
pub open spec fn email_pattern() -> Seq<char> {
    r"\b[A-Za-z0-9._%+-]+@[A-Za-z0-9.-]+\.[A-Za-z]{2,}\b"@
}

/// A message after the four rewrites, applied in order.
pub open spec fn masked_message(m: Seq<char>) -> Seq<char> {
    let a = regex_replaced(card_pattern(), m, "****-****-****-****"@);
    let b = regex_replaced(password_pattern(), a, "password=***"@);
    let c = regex_replaced(token_pattern(), b, "token=***"@);
    regex_replaced(email_pattern(), c, "***@***.com"@)
}

/// A key, already lowercased, that names a secret.
pub open spec fn sensitive_lowered(l: Seq<char>) -> bool {
    seq_contains(l, "password"@) || seq_contains(l, "token"@) || seq_contains(l, "secret"@)
}

/// A key whose lowercased form names a secret.
pub open spec fn sensitive_key(k: Seq<char>) -> bool {
    sensitive_lowered(lower_of(k))
}

/// The attributes as pairs of character sequences.
pub open spec fn attr_view(t: Attributes) -> Seq<(Seq<char>, Seq<char>)> {
    t@.map_values(|e: (Seq<char>, String)| (e.0, e.1@))
}

/// Attributes after redaction: each value under a sensitive key becomes
/// `***`; keys and order stay.
pub open spec fn redacted_attrs(s: Seq<(Seq<char>, Seq<char>)>) -> Seq<(Seq<char>, Seq<char>)> {
    s.map_values(
        |e: (Seq<char>, Seq<char>)|
            if sensitive_key(e.0) {
                (e.0, "***"@)
            } else {
                e
            },
    )
}

/// Whether an already lowercased key contains `password`, `token` or `secret`.
pub fn is_sensitive_lowered(lowered: &str) -> (r: bool)
    ensures
        r == sensitive_lowered(lowered@),
{
    str_contains(lowered, "password") || str_contains(lowered, "token") || str_contains(
        lowered,
        "secret",
    )
}

/// Whether the value under `key` is to be masked.
pub fn is_sensitive_key(key: &str) -> (r: bool)
    ensures
        r == sensitive_key(key@),
{
    let lowered = lowercase(key);
    is_sensitive_lowered(lowered.as_str())
}

/// The message rewrites: card numbers, passwords, tokens, then e-mails.
pub fn mask_message(m: &str) -> (r: String)
    ensures
        r@ == masked_message(m@),
{
    let a = regex_replace_all(r"\b\d{16}\b", m, "****-****-****-****");
    let b = regex_replace_all(r"password[=:]\s*\S+", a.as_str(), "password=***");
    let c = regex_replace_all(r"token[=:]\s*\S+", b.as_str(), "token=***");
    regex_replace_all(
        r"\b[A-Za-z0-9._%+-]+@[A-Za-z0-9.-]+\.[A-Za-z]{2,}\b",
        c.as_str(),
        "***@***.com",
    )
}

/// Masks the value of every sensitive key, in place.
pub fn mask_attributes(attrs: &mut Attributes)
    requires
        old(attrs).wf(),
    ensures
        final(attrs).wf(),
        attr_view(*final(attrs)) == redacted_attrs(attr_view(*old(attrs))),
{
    let ghost start = attr_view(*attrs);
    let n = attrs.len();
    let mut i: usize = 0;
    while i < n
        invariant
            attrs.wf(),
            n == attrs@.len(),
            start.len() == n,
            i <= n,
            forall|j: int| 0 <= j < i ==> #[trigger] attr_view(*attrs)[j] == redacted_attrs(start)[j],
            forall|j: int| i <= j < n ==> #[trigger] attr_view(*attrs)[j] == start[j],
        decreases n - i,
    {
        let ghost before = attr_view(*attrs);
        if is_sensitive_key(attrs.key_at(i).as_str()) {
            attrs.set_value_at(i, String::from_str("***"));
            assert(attr_view(*attrs) =~= before.update(i as int, (before[i as int].0, "***"@)));
        }
        assert(attr_view(*attrs)[i as int] == redacted_attrs(start)[i as int]);
        i = i + 1;
    }
    assert(attr_view(*attrs) =~= redacted_attrs(start));
}

impl LogEntry {
    /// Redacts the record: rewrites its message and masks sensitive
    /// attribute values. Identifier, application, level and timestamp stay.
    pub fn mask_secrets(&mut self)
        requires
            old(self).attributes.wf(),
        ensures
            final(self).id == old(self).id,
            final(self).app_name == old(self).app_name,
            final(self).level == old(self).level,
            final(self).timestamp == old(self).timestamp,
            final(self).message@ == masked_message(old(self).message@),
            final(self).attributes.wf(),
            attr_view(final(self).attributes) == redacted_attrs(attr_view(old(self).attributes)),
    {
        self.message = mask_message(self.message.as_str());
        mask_attributes(&mut self.attributes);
    }
}

/// Masking attributes twice gives what masking once gives.
pub proof fn lemma_attribute_redaction_idempotent(s: Seq<(Seq<char>, Seq<char>)>)
    ensures
        redacted_attrs(redacted_attrs(s)) == redacted_attrs(s),
{
    assert(redacted_attrs(redacted_attrs(s)) =~= redacted_attrs(s));
}

} // verus!
