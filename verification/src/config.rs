//! Configuration data and the lookup of API credentials.
//!
//! The executable loads these structs from the JSON configuration files; the
//! library looks entries up by name.

use vstd::prelude::*;
use crate::errors::KeyError;

verus! {

/// Connection details of the message broker.
pub struct KafkaConfig {
    pub bootstrap_servers: String,
    pub group_id: String,
    pub message_timeout_ms: u32,
    pub connection_max_idle_ms: u32,
}

/// Connection details of the blob store.
pub struct AzureConfig {
    pub storage_account_name: String,
    pub storage_account_key: String,
    pub storage_container: String,
    pub storage_blob_name: String,
}

/// Details of one configured HTTP API.
pub struct ApiDetails {
    pub url: String,
    pub apikey: String,
    pub description: String,
    pub category: String,
}

/// One named API entry of the configuration file.
pub struct APiConfig {
    pub api_name: String,
    pub api_details: ApiDetails,
}

/// The details of the first entry whose name matches, if any.
pub open spec fn api_lookup(entries: Seq<APiConfig>, name: Seq<char>) -> Option<ApiDetails>
    decreases entries.len(),
{
    if entries.len() == 0 {
        None
    } else if entries[0].api_name@ == name {
        Some(entries[0].api_details)
    } else {
        api_lookup(entries.drop_first(), name)
    }
}

/// The API key of the named entry, or `KeyError::NotFound` exactly when no
/// entry of that name is configured.
pub fn get_api_key(entries: &Vec<APiConfig>, api_name: &String) -> (r: Result<String, KeyError>)
    ensures
        r is Ok <==> api_lookup(entries@, api_name@) is Some,
        r is Ok ==> r->Ok_0 == api_lookup(entries@, api_name@)->0.apikey,
        r is Err ==> r->Err_0 is NotFound,
{
    proof {
        assert(entries@.skip(0) =~= entries@);
    }
    let n = entries.len();
    for i in 0..n
        invariant
            n == entries@.len(),
            api_lookup(entries@, api_name@) == api_lookup(entries@.skip(i as int), api_name@),
    {
        if entries[i].api_name == *api_name {
            return Ok(entries[i].api_details.apikey.clone());
        }
        proof {
            assert(entries@.skip(i as int).drop_first() =~= entries@.skip(i as int + 1));
        }
    }
    proof {
        assert(entries@.skip(n as int) =~= Seq::<APiConfig>::empty());
    }
    Err(KeyError::NotFound)
}

/// The URL of the named entry, or `KeyError::NotFound` exactly when no entry
/// of that name is configured.
pub fn get_api_url(entries: &Vec<APiConfig>, api_name: &String) -> (r: Result<String, KeyError>)
    ensures
        r is Ok <==> api_lookup(entries@, api_name@) is Some,
        r is Ok ==> r->Ok_0 == api_lookup(entries@, api_name@)->0.url,
        r is Err ==> r->Err_0 is NotFound,
{
    proof {
        assert(entries@.skip(0) =~= entries@);
    }
    let n = entries.len();
    for i in 0..n
        invariant
            n == entries@.len(),
            api_lookup(entries@, api_name@) == api_lookup(entries@.skip(i as int), api_name@),
    {
        if entries[i].api_name == *api_name {
            return Ok(entries[i].api_details.url.clone());
        }
        proof {
            assert(entries@.skip(i as int).drop_first() =~= entries@.skip(i as int + 1));
        }
    }
    proof {
        assert(entries@.skip(n as int) =~= Seq::<APiConfig>::empty());
    }
    Err(KeyError::NotFound)
}

} // verus!
