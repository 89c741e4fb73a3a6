use vstd::prelude::*;
use vstd::string::*;
use crate::error::BlockError;
use crate::hosts::{blocking_entry, blocking_entry_spec, remove_domains_spec, unblock_domains};
use crate::text::{trim, trim_spec};

verus! {

/// The text the message list starts with, before any domain was tried.
pub open spec fn initial_message() -> Seq<char> {
    "Waiting for domains to block..."@
}

/// How a new message lands in the list: it replaces the placeholder if
/// that is all the list holds, and is appended otherwise.
pub open spec fn with_message(messages: Seq<Seq<char>>, m: Seq<char>) -> Seq<Seq<char>> {
    if messages.len() == 1 && messages[0] == initial_message() {
        seq![m]
    } else {
        messages.push(m)
    }
}

/// What the session decided to do with one raw input line.
pub enum BlockRequest {
    /// The input was empty after trimming: nothing to do, not an error.
    Skipped,
    /// The trimmed domain, and the entry to append to the hosts file.
    Write { domain: String, entry: String },
}

/// One interactive blocking session: the input line being typed, the
/// messages shown to the user, and the domains this session has
/// successfully blocked — the set it owns and must clean up on exit.
pub struct App {
    pub input: String,
    pub messages: Vec<String>,
    pub blocked_domains: Vec<String>,
}

impl App {
    /// A fresh session: no input, the placeholder message, nothing blocked.
    pub fn new() -> (r: App)
        ensures
            r.input@ == Seq::<char>::empty(),
            r.messages.deep_view() == seq![initial_message()],
            r.blocked_domains.deep_view() == Seq::<Seq<char>>::empty(),
    {
        let mut messages: Vec<String> = Vec::new();
        messages.push(String::from_str("Waiting for domains to block..."));
        let blocked_domains: Vec<String> = Vec::new();
        proof {
            assert(messages.deep_view() =~= seq![initial_message()]);
            assert(blocked_domains.deep_view() =~= Seq::<Seq<char>>::empty());
        }
        App { input: String::new(), messages, blocked_domains }
    }

    /// Records a message, replacing the placeholder if it still stands
    /// alone, and appending otherwise.
    pub fn add_message(&mut self, message: String)
        ensures
            final(self).messages.deep_view() == with_message(
                old(self).messages.deep_view(),
                message@,
            ),
            final(self).input == old(self).input,
            final(self).blocked_domains == old(self).blocked_domains,
    {
        let placeholder = String::from_str("Waiting for domains to block...");
        let ghost m = message@;
        let ghost pre = self.messages.deep_view();
        if self.messages.len() == 1 && self.messages[0] == placeholder {
            proof {
                assert(pre[0] == initial_message());
            }
            self.messages.clear();
            self.messages.push(message);
            proof {
                assert(self.messages.deep_view() =~= seq![m]);
            }
        } else {
            proof {
                if pre.len() == 1 && pre[0] == initial_message() {
                    assert(self.messages@[0]@ == placeholder@);
                }
            }
            self.messages.push(message);
            proof {
                assert(self.messages.deep_view() =~= pre.push(m));
            }
        }
    }

    /// Decides what to do with one raw domain string: trims it, skips it
    /// if nothing is left, and otherwise hands back the trimmed domain
    /// together with the hosts-file entry to append. The session itself is
    /// untouched until the caller reports how the write went.
    pub fn block_domain(&self, domain: String) -> (r: BlockRequest)
        ensures
            trim_spec(domain@).len() == 0 ==> (r is Skipped),
            trim_spec(domain@).len() > 0 ==> (r matches BlockRequest::Write { domain: d, entry: e }
                && d@ == trim_spec(domain@) && e@ == blocking_entry_spec(trim_spec(domain@))),
    {
        let trimmed = trim(domain.as_str());
        if trimmed.unicode_len() == 0 {
            BlockRequest::Skipped
        } else {
            let entry = blocking_entry(trimmed);
            BlockRequest::Write { domain: trimmed.to_owned(), entry }
        }
    }

    /// Records the outcome of one attempted block. On success the domain
    /// joins the owned set and a success message lands; on failure the
    /// owned set is untouched — cleanup must never chase a domain that was
    /// not actually written — and the failure lands as a message.
    pub fn block_finished(&mut self, domain: String, outcome: Result<(), BlockError>)
        ensures
            final(self).input == old(self).input,
            outcome is Ok ==> ({
                &&& final(self).blocked_domains.deep_view()
                    == old(self).blocked_domains.deep_view().push(domain@)
                &&& final(self).blocked_domains.deep_view().contains(domain@)
                &&& final(self).messages.deep_view()
                    == with_message(old(self).messages.deep_view(), "✓ Blocked: "@ + domain@)
            }),
            outcome matches Err(e) ==> ({
                &&& final(self).blocked_domains == old(self).blocked_domains
                &&& final(self).messages.deep_view() == with_message(
                    old(self).messages.deep_view(),
                    "✗ Error blocking "@ + domain@ + ": "@ + e.message_spec(),
                )
            }),
    {
        match outcome {
            Ok(()) => {
                let mut m = String::from_str("✓ Blocked: ");
                m.append(domain.as_str());
                let ghost d = domain@;
                let ghost pre = self.blocked_domains.deep_view();
                self.blocked_domains.push(domain);
                proof {
                    assert(self.blocked_domains.deep_view() =~= pre.push(d));
                    assert(self.blocked_domains.deep_view()[pre.len() as int] == d);
                }
                self.add_message(m);
            },
            Err(e) => {
                let mut m = String::from_str("✗ Error blocking ");
                m.append(domain.as_str());
                m.append(": ");
                m.append(e.message());
                self.add_message(m);
            },
        }
    }

    /// The hosts-file text after this session's cleanup: every line naming
    /// a domain this session blocked is removed, every other line is kept
    /// as it was. The owned set is only read, never changed.
    pub fn cleanup(&self, content: &str) -> (r: String)
        ensures
            r@ == remove_domains_spec(content@, self.blocked_domains.deep_view()),
    {
        unblock_domains(content, &self.blocked_domains)
    }
}

} // verus!
