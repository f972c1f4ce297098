//! The feed of patches: which objects a client subscribes to, and which
//! patches it is sent.
use vstd::prelude::*;
use vstd::string::*;
use crate::error::AppError;
use crate::model::{strings_view, Timestamp};
use crate::operation::ObjectId;
use crate::text::same_text;

verus! {

/// The text that `{:?}` prints for a list of strings.
pub uninterp spec fn debug_text_of_strings(items: Seq<Seq<char>>) -> Seq<char>;

/// The list as `{:?}` prints it (`<Vec<String> as Debug>::fmt`).
#[verifier::external_body]
fn debug_text(items: &Vec<String>) -> (s: String)
    ensures
        s@ == debug_text_of_strings(strings_view(items@)),
{
    format!("{:?}", items)
}

/// The object that a subscribe message `["+", id]` asks for.
pub fn subscription_target(message: &Vec<String>) -> (r: Result<ObjectId, AppError>)
    ensures
        match r {
            Ok(id) => message@.len() == 2 && message@[0]@ == "+"@ && id@ == message@[1]@,
            Err(e) => !(message@.len() == 2 && message@[0]@ == "+"@) && (e matches AppError::ParseError(m)
                && m@ == "unexpected subscribe message: "@ + debug_text_of_strings(
                strings_view(message@),
            )),
        },
{
    if message.len() == 2 && same_text(message[0].as_str(), "+") {
        Ok(message[1].clone())
    } else {
        let mut m = String::from_str("unexpected subscribe message: ");
        m.append(debug_text(message).as_str());
        Err(AppError::ParseError(m))
    }
}

/// Whether a patch of `object_id`, created at `created_at`, goes out to a
/// client that subscribed to `subscriptions` and whose feed started at
/// `started`: only patches made after the feed started, of objects it
/// subscribed to.
pub fn forward_patch(
    created_at: Option<Timestamp>,
    started: Timestamp,
    subscriptions: &Vec<ObjectId>,
    object_id: &ObjectId,
) -> (r: bool)
    ensures
        r == match created_at {
            None => false,
            Some(t) => t >= started && strings_view(subscriptions@).contains(object_id@),
        },
{
    match created_at {
        None => false,
        Some(t) => {
            if t < started {
                return false;
            }
            let mut i: usize = 0;
            while i < subscriptions.len()
                invariant
                    created_at == Some(t),
                    t >= started,
                    i <= subscriptions@.len(),
                    forall|j: int| 0 <= j < i ==> subscriptions@[j]@ != object_id@,
                decreases subscriptions.len() - i,
            {
                if same_text(subscriptions[i].as_str(), object_id.as_str()) {
                    assert(strings_view(subscriptions@)[i as int] == object_id@);
                    return true;
                }
                i = i + 1;
            }
            proof {
                if strings_view(subscriptions@).contains(object_id@) {
                    let j = choose|j: int|
                        0 <= j < strings_view(subscriptions@).len() && strings_view(
                            subscriptions@,
                        )[j] == object_id@;
                    assert(subscriptions@[j]@ == object_id@);
                }
            }
            false
        },
    }
}

} // verus!
