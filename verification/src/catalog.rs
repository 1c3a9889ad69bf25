//! The property catalog: the WebDAV and CalDAV properties that the gateway
//! answers for its own principal, each with the XML that answers it.

use crate::text::{chars_equal, chars_of};
use vstd::prelude::*;

verus! {

/// The principal's own URL.
pub const PRINCIPAL_URL: &'static str = "<d:principal-URL><d:href>/principals/linkal/</d:href></d:principal-URL>";

/// The name the gateway shows for itself.
pub const DISPLAY_NAME: &'static str = "<d:displayname>Linkal</d:displayname>";

/// Where the principal's calendars are found.
pub const CALENDAR_HOME_SET: &'static str = "<cal:calendar-home-set><d:href>/cals/</d:href></cal:calendar-home-set>";

/// The principal that the client acts as.
pub const CURRENT_USER_PRINCIPAL: &'static str = "<d:current-user-principal><d:href>/principals/linkal/</d:href></d:current-user-principal>";

/// The principal's mail addresses.
pub const EMAIL_ADDRESS_SET: &'static str = "<cs:email-address-set><cs:email-address>hello@linkal.fr</cs:email-address></cs:email-address-set>";

/// The reports that the principal resource answers.
pub const SUPPORTED_REPORT_SET: &'static str = "<d:supported-report-set><d:supported-report><d:report><d:expand-property/></d:report></d:supported-report><d:supported-report><d:report><d:principal-match/></d:report></d:supported-report><d:supported-report><d:report><d:principal-property-search/></d:report></d:supported-report><d:supported-report><d:report><d:principal-search-property-set/></d:report></d:supported-report><d:supported-report><d:report><oc:filter-comments/></d:report></d:supported-report><d:supported-report><d:report><oc:filter-files/></d:report></d:supported-report></d:supported-report-set>";

/// The addresses under which the principal takes part in scheduling.
pub const CALENDAR_USER_ADDRESS_SET: &'static str = "<cal:calendar-user-address-set>\n                    <d:href>mailto:linkal@linkal.dev</d:href>\n                    <d:href>/principals/linkal/</d:href>\n                    </cal:calendar-user-address-set>";

/// The XML that answers the property `name`; `None` for a property that the
/// gateway does not know. Names are matched exactly.
pub open spec fn catalog_fragment(name: Seq<char>) -> Option<Seq<char>> {
    if name == "principal-URL"@ {
        Some(PRINCIPAL_URL@)
    } else if name == "displayname"@ {
        Some(DISPLAY_NAME@)
    } else if name == "calendar-home-set"@ {
        Some(CALENDAR_HOME_SET@)
    } else if name == "current-user-principal"@ {
        Some(CURRENT_USER_PRINCIPAL@)
    } else if name == "email-address-set"@ {
        Some(EMAIL_ADDRESS_SET@)
    } else if name == "supported-report-set"@ {
        Some(SUPPORTED_REPORT_SET@)
    } else if name == "calendar-user-address-set"@ {
        Some(CALENDAR_USER_ADDRESS_SET@)
    } else {
        None
    }
}

/// Whether the catalog holds the property `name`.
pub open spec fn catalog_has(name: Seq<char>) -> bool {
    catalog_fragment(name) is Some
}

/// The catalog answers different properties differently, and none with
/// nothing.
pub proof fn lemma_catalog_injective(a: Seq<char>, b: Seq<char>)
    requires
        catalog_has(a),
        catalog_has(b),
        catalog_fragment(a) == catalog_fragment(b),
    ensures
        a == b,
        catalog_fragment(a)->0.len() > 0,
{
    lemma_fragment_lengths();
}

/// The lengths of the catalog's answers.
pub proof fn lemma_fragment_lengths()
    ensures
        PRINCIPAL_URL@.len() == 71,
        DISPLAY_NAME@.len() == 37,
        CALENDAR_HOME_SET@.len() == 70,
        CURRENT_USER_PRINCIPAL@.len() == 89,
        EMAIL_ADDRESS_SET@.len() == 97,
        SUPPORTED_REPORT_SET@.len() == 564,
        CALENDAR_USER_ADDRESS_SET@.len() == 203,
{
    reveal_strlit("<d:principal-URL><d:href>/principals/linkal/</d:href></d:principal-URL>");
    reveal_strlit("<d:displayname>Linkal</d:displayname>");
    reveal_strlit("<cal:calendar-home-set><d:href>/cals/</d:href></cal:calendar-home-set>");
    reveal_strlit("<d:current-user-principal><d:href>/principals/linkal/</d:href></d:current-user-principal>");
    reveal_strlit("<cs:email-address-set><cs:email-address>hello@linkal.fr</cs:email-address></cs:email-address-set>");
    reveal_strlit("<d:supported-report-set><d:supported-report><d:report><d:expand-property/></d:report></d:supported-report><d:supported-report><d:report><d:principal-match/></d:report></d:supported-report><d:supported-report><d:report><d:principal-property-search/></d:report></d:supported-report><d:supported-report><d:report><d:principal-search-property-set/></d:report></d:supported-report><d:supported-report><d:report><oc:filter-comments/></d:report></d:supported-report><d:supported-report><d:report><oc:filter-files/></d:report></d:supported-report></d:supported-report-set>");
    reveal_strlit("<cal:calendar-user-address-set>\n                    <d:href>mailto:linkal@linkal.dev</d:href>\n                    <d:href>/principals/linkal/</d:href>\n                    </cal:calendar-user-address-set>");
}

/// Looks the property `name` up in the catalog.
pub fn lookup(name: &Vec<char>) -> (found: Option<&'static str>)
    ensures
        match found {
            Some(fragment) => catalog_fragment(name@) == Some(fragment@),
            None => catalog_fragment(name@) is None,
        },
{
    if chars_equal(name, &chars_of("principal-URL")) {
        Some(PRINCIPAL_URL)
    } else if chars_equal(name, &chars_of("displayname")) {
        Some(DISPLAY_NAME)
    } else if chars_equal(name, &chars_of("calendar-home-set")) {
        Some(CALENDAR_HOME_SET)
    } else if chars_equal(name, &chars_of("current-user-principal")) {
        Some(CURRENT_USER_PRINCIPAL)
    } else if chars_equal(name, &chars_of("email-address-set")) {
        Some(EMAIL_ADDRESS_SET)
    } else if chars_equal(name, &chars_of("supported-report-set")) {
        Some(SUPPORTED_REPORT_SET)
    } else if chars_equal(name, &chars_of("calendar-user-address-set")) {
        Some(CALENDAR_USER_ADDRESS_SET)
    } else {
        None
    }
}

/// Whether the catalog holds the property `name`.
pub fn contains_key(name: &Vec<char>) -> (found: bool)
    ensures
        found == catalog_has(name@),
{
    lookup(name).is_some()
}

} // verus!
