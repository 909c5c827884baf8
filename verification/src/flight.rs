//! The bulk door: who asks, and what they may read.
//!
//! It is answered by the rules of the other door, so that a caller sees here what they see there.

use crate::text::{self, trim};
use vstd::prelude::*;

verus! {

/// The one key that names who asks. A door that took several would let a client in by accident.
pub const USER_KEY: &'static str = "sankhya-user";

/// Why a request at the bulk door is refused.
#[derive(PartialEq, Eq, Debug)]
pub enum FlightRefusal {
    /// It is not known who asks.
    Unauthenticated(String),
    /// They may not.
    PermissionDenied(String),
}

/// Why a request at the bulk door is refused, as text.
pub enum FlightRefusalView {
    /// It is not known who asks.
    Unauthenticated(Seq<char>),
    /// They may not.
    PermissionDenied(Seq<char>),
}

impl View for FlightRefusal {
    type V = FlightRefusalView;

    open spec fn view(&self) -> FlightRefusalView {
        match self {
            FlightRefusal::Unauthenticated(why) => FlightRefusalView::Unauthenticated(why@),
            FlightRefusal::PermissionDenied(why) => FlightRefusalView::PermissionDenied(why@),
        }
    }
}

/// The user that a request names, by the value of the key where it has one that is text. A request
/// that names nobody is refused, because it could not be audited.
pub fn user_of(named: Option<&str>) -> (r: Result<String, FlightRefusal>)
    ensures
        ({
            let user = match named {
                Some(value) => text::trimmed(value@),
                None => Seq::empty(),
            };
            match r {
                Ok(name) => name@ == user && user.len() > 0,
                Err(refused) => user.len() == 0 && refused@ == FlightRefusalView::Unauthenticated(
                    "no `"@ + USER_KEY@ + "` was supplied; an unattributable request cannot be audited"@,
                ),
            }
        }),
{
    if let Some(value) = named {
        let user = trim(value);
        if !user.as_str().is_empty() {
            return Ok(user);
        }
    }
    let mut why = "no `".to_string();
    why.append(USER_KEY);
    why.append("` was supplied; an unattributable request cannot be audited");
    Err(FlightRefusal::Unauthenticated(why))
}

/// What stands against a session at the bulk door.
pub open spec fn session_refused(
    known: bool,
    built: Result<(nat, nat), Seq<char>>,
) -> Option<FlightRefusalView> {
    if !known {
        Some(FlightRefusalView::Unauthenticated("this user cannot be authenticated"@))
    } else {
        match built {
            Err(why) => Some(FlightRefusalView::PermissionDenied(why)),
            Ok((registered, served)) => if registered == 0 && served > 0 {
                Some(FlightRefusalView::PermissionDenied("this principal may not read any table"@))
            } else {
                None
            },
        }
    }
}

/// Whether a session stands at the bulk door: `known` says whether a principal stands behind the
/// user, and `built` how many tables its session may read of how many are served, or why it could
/// not be made.
pub fn session_for(known: bool, built: Result<(usize, usize), String>) -> (r: Result<(), FlightRefusal>)
    ensures
        (match r {
            Ok(()) => None::<FlightRefusalView>,
            Err(refused) => Some(refused@),
        }) == session_refused(
            known,
            match built {
                Ok((registered, served)) => Ok((registered as nat, served as nat)),
                Err(why) => Err(why@),
            },
        ),
{
    if !known {
        return Err(FlightRefusal::Unauthenticated("this user cannot be authenticated".to_string()));
    }
    match built {
        Err(why) => Err(FlightRefusal::PermissionDenied(why)),
        Ok((registered, served)) => {
            if registered == 0 && served > 0 {
                Err(FlightRefusal::PermissionDenied("this principal may not read any table".to_string()))
            } else {
                Ok(())
            }
        },
    }
}

/// A session is opened exactly for a known user whose tables could be registered, and to whom at least one table
/// can be shown where any is served; one who is not known is told so, and nothing more.
pub proof fn sessions_open_for_the_known(known: bool, built: Result<(nat, nat), Seq<char>>)
    ensures
        session_refused(known, built) is None <==> known && built is Ok && ((built->Ok_0).0 > 0 || (built->Ok_0).1 == 0),
        !known <==> session_refused(known, built) is Some && session_refused(known, built)->0 is Unauthenticated,
        !known ==> session_refused(known, built) == session_refused(known, Ok((0, 0))),
{
}

} // verus!
