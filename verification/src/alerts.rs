//! The alert engine's decisions: which detection events are new since the
//! last pass, which rules an event triggers, whether a rule's cooldown has run
//! out, and what a dispatch is logged as.
use vstd::prelude::*;
use crate::types::{AlertAction, DetectionKind, detection_kind_name, detection_kind_name_spec};
use crate::text::{chars_eq, chars_of, extend_str, string_from_chars};

verus! {

/// The event type rules name a detection by: `detection:` and the kind's name.
pub open spec fn event_label_spec(k: DetectionKind) -> Seq<char> {
    "detection:"@ + detection_kind_name_spec(k)
}

pub fn event_label(k: DetectionKind) -> (r: String)
    ensures
        r@ == event_label_spec(k),
{
    let mut b = chars_of("detection:");
    extend_str(&mut b, detection_kind_name(k));
    string_from_chars(b.as_slice())
}

/// A rule applies to an event of its own type, and a `*` rule to every event.
pub open spec fn rule_applies_spec(rule_event_type: Seq<char>, label: Seq<char>) -> bool {
    rule_event_type == label || rule_event_type == "*"@
}

pub fn rule_applies(rule_event_type: &str, label: &str) -> (r: bool)
    ensures
        r == rule_applies_spec(rule_event_type@, label@),
{
    let a = chars_of(rule_event_type);
    let b = chars_of(label);
    let star = chars_of("*");
    chars_eq(a.as_slice(), b.as_slice()) || chars_eq(a.as_slice(), star.as_slice())
}

/// A rule may fire when it never fired, or when at least its cooldown has passed
/// since it last did (`elapsed_secs`, in whole seconds).
pub fn alert_due(elapsed_secs: Option<i64>, cooldown_s: u32) -> (r: bool)
    ensures
        r == match elapsed_secs {
            None => true,
            Some(e) => e >= cooldown_s,
        },
{
    match elapsed_secs {
        None => true,
        Some(e) => e >= cooldown_s as i64,
    }
}

/// The events to look at in this pass, as a range of the current list, and the
/// count to remember: nothing when the list has not grown; everything after the
/// first pass; otherwise what lies beyond the remembered count.
pub fn new_events_window(last_count: usize, current_count: usize) -> (r: (
    Option<(usize, usize)>,
    usize,
))
    ensures
        r.1 == current_count,
        current_count <= last_count ==> r.0 is None,
        current_count > last_count ==> r.0 == Some(
            (if last_count == 0 {
                0usize
            } else {
                last_count
            }, current_count),
        ),
{
    if current_count <= last_count {
        return (None, current_count);
    }
    let start = if last_count == 0 {
        0
    } else if last_count < current_count {
        last_count
    } else {
        current_count
    };
    (Some((start, current_count)), current_count)
}

/// How a dispatch is logged: the UI always succeeds; SMS needs a number; a webhook
/// needs a URL and an answer with a success status (`webhook_ok`).
pub fn dispatch_status(action: AlertAction, has_target: bool, webhook_ok: bool) -> (r: &'static str)
    ensures
        r@ == (if match action {
            AlertAction::Ui => true,
            AlertAction::Sms => has_target,
            AlertAction::Webhook => has_target && webhook_ok,
        } {
            "sent"@
        } else {
            "failed"@
        }),
{
    let ok = match action {
        AlertAction::Ui => true,
        AlertAction::Sms => has_target,
        AlertAction::Webhook => has_target && webhook_ok,
    };
    if ok {
        "sent"
    } else {
        "failed"
    }
}

/// The message sent when a rule is tested.
pub fn test_alert_message(event_type: &str) -> (r: String)
    ensures
        r@ == "Test notification for rule: "@ + event_type@,
{
    let mut b = chars_of("Test notification for rule: ");
    extend_str(&mut b, event_type);
    string_from_chars(b.as_slice())
}


/// How many detection events the live list keeps.
pub open spec fn recent_limit() -> nat {
    50
}

/// The live list after new events: each new event in turn goes to the front,
/// and only the first fifty are kept.
pub open spec fn recent_after<T>(recent: Seq<T>, new_events: Seq<T>) -> Seq<T> {
    let all = new_events.reverse() + recent;
    if all.len() > recent_limit() {
        all.take(recent_limit() as int)
    } else {
        all
    }
}

/// Puts new events at the front of the live list, newest first, keeping fifty.
pub fn push_recent_events<T>(recent: &mut Vec<T>, new_events: Vec<T>)
    ensures
        final(recent)@ == recent_after(old(recent)@, new_events@),
        final(recent)@.len() <= recent_limit(),
{
    let ghost start = recent@;
    let ghost news = new_events@;
    let mut rest = new_events;
    let mut i: usize = 0;
    let n = rest.len();
    assert(news.take(0).reverse() =~= Seq::<T>::empty());
    assert(recent@ =~= news.take(0).reverse() + start);
    while i < n
        invariant
            n == news.len(),
            i <= n,
            rest@ == news.skip(i as int),
            recent@ == news.take(i as int).reverse() + start,
        decreases n - i,
    {
        let ghost prev = rest@;
        let e = rest.remove(0);
        proof {
            assert(e == news[i as int]);
            assert(rest@ =~= news.skip(i + 1));
        }
        let ghost before = recent@;
        recent.insert(0, e);
        proof {
            let t = news.take(i + 1);
            assert(t.reverse() =~= seq![e] + news.take(i as int).reverse()) by {
                assert(t.len() == i + 1);
                assert forall|k: int| 0 <= k < t.len() implies #[trigger] t.reverse()[k] == (seq![e]
                    + news.take(i as int).reverse())[k] by {
                    if k == 0 {
                    } else {
                        assert(t.reverse()[k] == t[i - k]);
                        assert(news.take(i as int).reverse()[k - 1] == news.take(i as int)[i - 1 - (k - 1)]);
                    }
                }
            }
            assert(recent@ =~= t.reverse() + start);
        }
        i = i + 1;
    }
    assert(news.take(n as int) =~= news);
    recent.truncate(50);
}

/// The pause between frame captures: the configured interval, at least 100 ms.
pub fn capture_interval_ms(configured: u32) -> (r: u32)
    ensures
        r == if configured >= 100 {
            configured
        } else {
            100u32
        },
{
    if configured >= 100 {
        configured
    } else {
        100
    }
}

/// When a worker looks for its device again: after `short_secs`, or after
/// `long_secs` once more than `patience` looks in a row have failed.
#[derive(Clone, Copy, Debug)]
pub struct ProbeSchedule {
    pub failures: u32,
    pub delay_secs: u64,
    pub patience: u32,
    pub short_secs: u64,
    pub long_secs: u64,
}

impl ProbeSchedule {
    pub fn new(patience: u32, short_secs: u64, long_secs: u64) -> (r: Self)
        ensures
            r == (ProbeSchedule { failures: 0, delay_secs: short_secs, patience, short_secs, long_secs }),
    {
        ProbeSchedule { failures: 0, delay_secs: short_secs, patience, short_secs, long_secs }
    }

    /// A look that found nothing: one more failure, and the long delay once the
    /// failures exceed the patience. Returns whether this was the first failure
    /// (which the worker reports).
    pub fn failed(&mut self) -> (first: bool)
        requires
            old(self).failures < u32::MAX,
        ensures
            final(self).failures == old(self).failures + 1,
            final(self).delay_secs == if final(self).failures > old(self).patience {
                old(self).long_secs
            } else {
                old(self).delay_secs
            },
            first == (final(self).failures == 1),
            final(self).patience == old(self).patience,
            final(self).short_secs == old(self).short_secs,
            final(self).long_secs == old(self).long_secs,
    {
        self.failures = self.failures + 1;
        if self.failures > self.patience {
            self.delay_secs = self.long_secs;
        }
        self.failures == 1
    }

    /// A look that found the device: the short delay again, failures forgotten.
    pub fn succeeded(&mut self)
        ensures
            final(self).failures == 0,
            final(self).delay_secs == old(self).short_secs,
            final(self).patience == old(self).patience,
            final(self).short_secs == old(self).short_secs,
            final(self).long_secs == old(self).long_secs,
    {
        self.failures = 0;
        self.delay_secs = self.short_secs;
    }
}

} // verus!
