use vstd::prelude::*;
use crate::text::concat;

verus! {

/// Address of the recognition endpoint for a request tagged with the two
/// identifiers.
pub fn tag_url(uuid1: &str, uuid2: &str) -> (url: String)
    ensures
        url@ == "https://amp.shazam.com/discovery/v5/en/US/android/-/tag/"@ + uuid1@ + "/"@ + uuid2@
            + "?sync=true&webv3=true&sampling=true&connected=&shazamapiversion=v3&sharehub=true&video=v3"@,
{
    let mut url = concat("https://amp.shazam.com/discovery/v5/en/US/android/-/tag/", uuid1);
    url.append("/");
    url.append(uuid2);
    url.append(
        "?sync=true&webv3=true&sampling=true&connected=&shazamapiversion=v3&sharehub=true&video=v3",
    );
    url
}

} // verus!
