//! The identity of the innertube client that the player API is asked as, and the
//! request that asks it.

use vstd::prelude::*;
use crate::json_value::{json_text, member_text, members_text, push_json, push_quoted, quoted, JsonNumber, JsonValue};
use crate::text::{dec, push_dec, push_str, string_of};

verus! {

/// An innertube client identity.
#[derive(Debug, Clone, Copy)]
pub struct ClientConfig {
    pub name: &'static str,
    pub version: &'static str,
    pub user_agent: &'static str,
    pub device_make: &'static str,
    pub device_model: &'static str,
    pub android_sdk: u32,
    pub os_name: &'static str,
    pub os_version: &'static str,
}

/// `"key":value`, the value given by its text.
pub open spec fn field(key: Seq<char>, value_text: Seq<char>) -> Seq<char> {
    quoted(key) + seq![':'] + value_text
}

/// The compact JSON text of the `client` object, its members sorted by key.
pub open spec fn client_text(c: ClientConfig) -> Seq<char> {
    seq!['{'] + (field("androidSdkVersion"@, dec(c.android_sdk as nat)) + seq![','] + field(
        "clientName"@,
        quoted(c.name@),
    ) + seq![','] + field("clientVersion"@, quoted(c.version@)) + seq![','] + field(
        "deviceMake"@,
        quoted(c.device_make@),
    ) + seq![','] + field("deviceModel"@, quoted(c.device_model@)) + seq![','] + field(
        "osName"@,
        quoted(c.os_name@),
    ) + seq![','] + field("osVersion"@, quoted(c.os_version@)) + seq![','] + field(
        "userAgent"@,
        quoted(c.user_agent@),
    )) + seq!['}']
}

/// The body of a player request: the client under `context`, then the video id.
pub open spec fn player_request_text(c: ClientConfig, video_id: Seq<char>) -> Seq<char> {
    "{\"context\":{\"client\":"@ + client_text(c) + "},\"videoId\":"@ + quoted(video_id) + "}"@
}

fn text_of(s: &str) -> (r: String)
    ensures
        r@ == s@,
{
    let mut v: Vec<char> = Vec::new();
    push_str(&mut v, s);
    string_of(v.as_slice())
}

/// Appends the member `key: value` (a string) to `m`, keeping track of the members' text.
fn push_member(m: &mut Vec<(String, JsonValue)>, key: &str, value: &str)
    requires
        old(m)@.len() >= 1,
    ensures
        final(m)@.len() == old(m)@.len() + 1,
        members_text(final(m)@) == members_text(old(m)@) + seq![','] + field(key@, quoted(value@)),
{
    let ghost before = m@;
    let k = text_of(key);
    let v = JsonValue::Str(text_of(value));
    let ghost vv = v;
    assert(json_text(vv) == quoted(value@));
    m.push((k, v));
    assert(m@.drop_last() =~= before);
    assert(member_text(m@.last()) == field(key@, quoted(value@)));
}

impl ClientConfig {
    /// The `client` object of a player request.
    pub fn client_json(self) -> (r: JsonValue)
        ensures
            json_text(r) == client_text(self),
    {
        let mut digits: Vec<char> = Vec::new();
        push_dec(&mut digits, self.android_sdk as u64);
        let sdk = JsonValue::Number(
            JsonNumber { text: string_of(digits.as_slice()), as_u64: Some(self.android_sdk as u64) },
        );
        let ghost sdk_v = sdk;
        assert(json_text(sdk_v) == dec(self.android_sdk as nat));
        let mut m: Vec<(String, JsonValue)> = Vec::new();
        m.push((text_of("androidSdkVersion"), sdk));
        assert(members_text(m@) == member_text(m@[0]));
        let ghost t1 = field("androidSdkVersion"@, dec(self.android_sdk as nat));
        assert(members_text(m@) == t1);
        push_member(&mut m, "clientName", self.name);
        push_member(&mut m, "clientVersion", self.version);
        push_member(&mut m, "deviceMake", self.device_make);
        push_member(&mut m, "deviceModel", self.device_model);
        push_member(&mut m, "osName", self.os_name);
        push_member(&mut m, "osVersion", self.os_version);
        push_member(&mut m, "userAgent", self.user_agent);
        let r = JsonValue::Object(m);
        assert(json_text(r) == seq!['{'] + members_text(m@) + seq!['}']);
        r
    }
}

/// The JSON body of a player request for `video_id`, asked as `client`.
pub fn player_request_body(client: ClientConfig, video_id: &str) -> (r: String)
    ensures
        r@ == player_request_text(client, video_id@),
{
    let mut out: Vec<char> = Vec::new();
    push_str(&mut out, "{\"context\":{\"client\":");
    let c = client.client_json();
    push_json(&mut out, &c);
    push_str(&mut out, "},\"videoId\":");
    push_quoted(&mut out, video_id);
    push_str(&mut out, "}");
    string_of(out.as_slice())
}

} // verus!
