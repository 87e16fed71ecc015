//! The periodic reminder of unread notifications.

use vstd::prelude::*;
use crate::api::{list_params, opt_view, spec_list_url, ApiClient};
use crate::sse::SystemNotification;
use crate::text::{
    decimal, format_i64, format_u64, lemma_parse_format_u64, parse_u64, parse_u64_spec, push_str,
    signed_decimal,
};

verus! {

/// The reminder interval, in minutes, when none was saved.
pub const DEFAULT_REMINDER_MINUTES: u64 = 20;

/// The interval that a saved setting stands for: the number it holds, or the
/// default when there is none or it is not a number.
pub open spec fn spec_reminder_interval(stored: Option<Seq<char>>) -> u64 {
    match stored {
        Some(s) => match parse_u64_spec(s) {
            Some(n) => n,
            None => DEFAULT_REMINDER_MINUTES,
        },
        None => DEFAULT_REMINDER_MINUTES,
    }
}

/// The reminder interval, in minutes, that a saved setting stands for.
pub fn reminder_interval(stored: &Option<String>) -> (minutes: u64)
    ensures
        minutes == spec_reminder_interval(
            match stored {
                Some(s) => Some(s@),
                None => None,
            },
        ),
{
    match stored {
        Some(s) => match parse_u64(s.as_str()) {
            Some(n) => n,
            None => DEFAULT_REMINDER_MINUTES,
        },
        None => DEFAULT_REMINDER_MINUTES,
    }
}

/// The text under which an interval is saved: its decimal digits.
pub fn reminder_interval_setting(minutes: u64) -> (setting: String)
    ensures
        setting@ == decimal(minutes as nat),
{
    format_u64(minutes)
}

/// An interval saved as a setting is the interval that the setting is read
/// back as.
pub proof fn lemma_reminder_interval_roundtrip(minutes: u64)
    ensures
        spec_reminder_interval(Some(decimal(minutes as nat))) == minutes,
{
    lemma_parse_format_u64(minutes);
}

/// The time between two checks for unread notifications, in seconds.
pub fn reminder_period_secs(minutes: u64) -> (secs: u64)
    requires
        minutes * 60 <= u64::MAX,
    ensures
        secs == minutes * 60,
{
    minutes * 60
}

/// The listing that a reminder checks: unread notifications, one at most,
/// whose total tells how many there are.
pub fn unread_check_url(client: &ApiClient) -> (url: String)
    ensures
        url@ == spec_list_url(
            client.spec_base_url(),
            list_params(Some("unread"@), None, None, Some(1), None),
        ),
{
    let url = client.list_notifications_url(Some("unread"), None, None, Some(1), None);
    assert(opt_view(Some("unread")) == Some("unread"@));
    url
}

/// The title of a reminder.
pub open spec fn spec_reminder_title() -> Seq<char> {
    "Priority Notify"@
}

/// The text of a reminder for `total` unread notifications; none when there
/// are none.
pub open spec fn spec_reminder_body(total: i64) -> Option<Seq<char>> {
    if total <= 0 {
        None
    } else if total == 1 {
        Some("You have 1 unread notification"@)
    } else {
        Some("You have "@ + signed_decimal(total as int) + " unread notifications"@)
    }
}

/// The reminder to show for `total` unread notifications, if any.
pub fn reminder_notification(total: i64) -> (alert: Option<SystemNotification>)
    ensures
        match spec_reminder_body(total) {
            Some(body) => alert matches Some(a) && a.title@ == spec_reminder_title() && a.body@
                == body,
            None => alert is None,
        },
{
    if total <= 0 {
        return None;
    }
    let body = if total == 1 {
        String::from_str("You have 1 unread notification")
    } else {
        let mut b = String::from_str("You have ");
        let n = format_i64(total);
        push_str(&mut b, n.as_str());
        push_str(&mut b, " unread notifications");
        b
    };
    Some(SystemNotification { title: String::from_str("Priority Notify"), body })
}

/// The ending of a reminder for `total` unread notifications: singular for
/// exactly one.
pub open spec fn reminder_ending(total: i64) -> Seq<char> {
    if total == 1 {
        " unread notification"@
    } else {
        " unread notifications"@
    }
}

/// Every reminder states the actual number of unread notifications: for a
/// positive total it reads "You have ", then digits that read back as the
/// total, then " unread notification", with a final "s" unless the total is
/// one; there is no reminder for a total that is not positive.
pub proof fn lemma_reminder_body_states_total(total: i64)
    ensures
        total <= 0 ==> spec_reminder_body(total) is None,
        total > 0 ==> spec_reminder_body(total) == Some(
            "You have "@ + decimal(total as nat) + reminder_ending(total),
        ),
        total > 0 ==> parse_u64_spec(decimal(total as nat)) == Some(total as u64),
{
    if total > 0 {
        lemma_parse_format_u64(total as u64);
        if total == 1 {
            reveal_strlit("You have 1 unread notification");
            reveal_strlit("You have ");
            reveal_strlit(" unread notification");
            assert(decimal(1) =~= seq!['1']);
            assert("You have 1 unread notification"@ =~= "You have "@ + decimal(1) + " unread notification"@);
        } else {
            assert(signed_decimal(total as int) == decimal(total as nat));
        }
    }
}

/// Reminders for different positive totals read differently.
pub proof fn lemma_reminder_bodies_distinct(a: i64, b: i64)
    requires
        a > 0,
        b > 0,
        a != b,
    ensures
        spec_reminder_body(a) != spec_reminder_body(b),
{
    lemma_reminder_body_states_total(a);
    lemma_reminder_body_states_total(b);
    let p = "You have "@;
    let da = decimal(a as nat);
    let db = decimal(b as nat);
    let x = p + da + reminder_ending(a);
    let y = p + db + reminder_ending(b);
    reveal_strlit(" unread notification");
    reveal_strlit(" unread notifications");
    if x == y {
        if (a == 1) == (b == 1) {
            assert(reminder_ending(a) == reminder_ending(b));
            assert(x.len() == p.len() + da.len() + reminder_ending(a).len());
            assert(y.len() == p.len() + db.len() + reminder_ending(b).len());
            assert(da.len() == db.len());
            assert(da =~= x.subrange(p.len() as int, (p.len() + da.len()) as int));
            assert(db =~= y.subrange(p.len() as int, (p.len() + db.len()) as int));
            assert(parse_u64_spec(da) == parse_u64_spec(db));
        } else {
            assert(x.last() == reminder_ending(a).last());
            assert(y.last() == reminder_ending(b).last());
            assert(" unread notification"@.last() == 'n');
            assert(" unread notifications"@.last() == 's');
        }
    }
}

} // verus!
