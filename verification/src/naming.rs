//! Names of containers, volumes and sandboxes.

use vstd::prelude::*;

use crate::text::{join2, join3, slice};

verus! {

/// A lower-case hexadecimal digit.
pub open spec fn is_hex(c: char) -> bool {
    '0' <= c <= '9' || 'a' <= c <= 'f'
}

/// A random UUID in its usual form: 36 characters in groups of 8, 4, 4, 4 and
/// 12 hexadecimal digits with hyphens between, of version 4 and of the variant
/// that RFC 9562 describes.
pub open spec fn is_uuid(s: Seq<char>) -> bool {
    &&& s.len() == 36
    &&& s[8] == '-' && s[13] == '-' && s[18] == '-' && s[23] == '-'
    &&& forall|i: int|
        0 <= i < 36 && i != 8 && i != 13 && i != 18 && i != 23 ==> is_hex(#[trigger] s[i])
    &&& s[14] == '4'
    &&& s[19] == '8' || s[19] == '9' || s[19] == 'a' || s[19] == 'b'
}

/// The eight hexadecimal digits that a short name ends in.
pub open spec fn is_short(s: Seq<char>) -> bool {
    s.len() == 8 && forall|i: int| 0 <= i < 8 ==> is_hex(#[trigger] s[i])
}

/// The container name of a tier with a given short ending.
pub open spec fn container_text(tier: Seq<char>, short: Seq<char>) -> Seq<char> {
    "den-"@ + tier + "-"@ + short
}

/// The volume name with a given short ending.
pub open spec fn volume_text(short: Seq<char>) -> Seq<char> {
    "den-vol-"@ + short
}

/// The sandbox id of a tier with a given UUID.
pub open spec fn sandbox_id_text(tier: Seq<char>, uuid: Seq<char>) -> Seq<char> {
    tier + "-"@ + uuid
}

/// Whether `name` can be the name of a container of `tier`.
pub open spec fn names_container(name: Seq<char>, tier: Seq<char>) -> bool {
    exists|short: Seq<char>| is_short(short) && name == #[trigger] container_text(tier, short)
}

/// Whether `name` can be the name of a volume.
pub open spec fn names_volume(name: Seq<char>) -> bool {
    exists|short: Seq<char>| is_short(short) && name == #[trigger] volume_text(short)
}

/// Whether `id` can be the id of a sandbox of `tier`.
pub open spec fn names_sandbox(id: Seq<char>, tier: Seq<char>) -> bool {
    exists|uuid: Seq<char>| is_uuid(uuid) && id == #[trigger] sandbox_id_text(tier, uuid)
}

/// `uuid::Uuid::new_v4`, written out by its `Display`. It is random, so all that
/// is claimed is the form. `new_v4` panics where the system has no source of
/// randomness.
#[verifier::external_body]
pub(crate) fn random_uuid() -> (r: String)
    ensures
        is_uuid(r@),
{
    uuid::Uuid::new_v4().to_string()
}

/// The first eight characters of a UUID.
fn short_of(uuid: &str) -> (r: String)
    requires
        is_uuid(uuid@),
    ensures
        r@ == uuid@.take(8),
        is_short(r@),
{
    let r = slice(uuid, 0, 8);
    assert(r@ =~= uuid@.take(8));
    r
}

/// The container name that comes of a tier and a drawn UUID: `den-{tier}-{short}`.
pub fn container_name_of(tier: &str, uuid: &str) -> (r: String)
    requires
        is_uuid(uuid@),
    ensures
        r@ == container_text(tier@, uuid@.take(8)),
        names_container(r@, tier@),
{
    let short = short_of(uuid);
    let r = join2(join3("den-", tier, "-").as_str(), short.as_str());
    assert(r@ == container_text(tier@, short@));
    r
}

/// The volume name that comes of a drawn UUID: `den-vol-{short}`.
pub fn volume_name_of(uuid: &str) -> (r: String)
    requires
        is_uuid(uuid@),
    ensures
        r@ == volume_text(uuid@.take(8)),
        names_volume(r@),
{
    let short = short_of(uuid);
    let r = join2("den-vol-", short.as_str());
    assert(r@ == volume_text(short@));
    r
}

/// The sandbox id that comes of a tier and a drawn UUID: `{tier}-{uuid}`.
pub fn sandbox_id_of(tier: &str, uuid: &str) -> (r: String)
    requires
        is_uuid(uuid@),
    ensures
        r@ == sandbox_id_text(tier@, uuid@),
        names_sandbox(r@, tier@),
{
    let r = join3(tier, "-", uuid);
    assert(r@ == sandbox_id_text(tier@, uuid@));
    r
}

/// A container name of a tier, from a UUID drawn for it.
pub fn container_name(tier: &str) -> (r: String)
    ensures
        names_container(r@, tier@),
{
    container_name_of(tier, random_uuid().as_str())
}

/// A volume name, from a UUID drawn for it.
pub fn volume_name() -> (r: String)
    ensures
        names_volume(r@),
{
    volume_name_of(random_uuid().as_str())
}

/// A sandbox id of a tier, from a UUID drawn for it.
pub fn sandbox_id(tier: &str) -> (r: String)
    ensures
        names_sandbox(r@, tier@),
{
    sandbox_id_of(tier, random_uuid().as_str())
}

/// Different short endings name different volumes.
pub proof fn endings_tell_volumes(a: Seq<char>, b: Seq<char>)
    requires
        volume_text(a) == volume_text(b),
    ensures
        a == b,
{
    let n = "den-vol-"@.len() as int;
    assert(a =~= volume_text(a).skip(n));
    assert(b =~= volume_text(b).skip(n));
}

/// A container name tells its tier and its short ending: where either differs,
/// the names differ.
pub proof fn container_name_tells_tier_and_ending(
    s: Seq<char>,
    a: Seq<char>,
    t: Seq<char>,
    b: Seq<char>,
)
    requires
        is_short(a),
        is_short(b),
        container_text(s, a) == container_text(t, b),
    ensures
        s == t,
        a == b,
{
    let name = container_text(s, a);
    let n = name.len() as int;
    let head = "den-"@.len() as int;
    let dash = "-"@.len() as int;
    assert(a =~= name.skip(n - 8));
    assert(b =~= name.skip(n - 8));
    assert(s =~= name.subrange(head, n - 8 - dash));
    assert(t =~= name.subrange(head, n - 8 - dash));
}

/// Different UUIDs name different sandboxes of a tier.
pub proof fn uuids_tell_sandboxes(tier: Seq<char>, a: Seq<char>, b: Seq<char>)
    requires
        sandbox_id_text(tier, a) == sandbox_id_text(tier, b),
    ensures
        a == b,
{
    let n = (tier + "-"@).len() as int;
    assert(a =~= sandbox_id_text(tier, a).skip(n));
    assert(b =~= sandbox_id_text(tier, b).skip(n));
}

/// A sandbox id tells its tier: ids of different tiers differ.
pub proof fn sandbox_id_tells_tier(id: Seq<char>, a: Seq<char>, b: Seq<char>)
    requires
        names_sandbox(id, a),
        names_sandbox(id, b),
    ensures
        a == b,
{
    let u = choose|u: Seq<char>| is_uuid(u) && id == #[trigger] sandbox_id_text(a, u);
    let v = choose|v: Seq<char>| is_uuid(v) && id == #[trigger] sandbox_id_text(b, v);
    assert(a =~= id.take(id.len() - 36 - "-"@.len()));
    assert(b =~= id.take(id.len() - 36 - "-"@.len()));
}

/// Names are made of these pieces and nothing else; an ending is eight lower-case
/// hexadecimal digits.
pub proof fn names_are_made_of(tier: Seq<char>, ending: Seq<char>, uuid: Seq<char>, name: Seq<char>)
    ensures
        container_text(tier, ending) == "den-"@ + tier + "-"@ + ending,
        volume_text(ending) == "den-vol-"@ + ending,
        sandbox_id_text(tier, uuid) == tier + "-"@ + uuid,
        is_short(ending) <==> ending.len() == 8 && forall|i: int|
            0 <= i < 8 ==> '0' <= #[trigger] ending[i] <= '9' || 'a' <= ending[i] <= 'f',
        names_volume(name) <==> name.len() >= 8 && name == "den-vol-"@ + name.skip(name.len() - 8)
            && is_short(name.skip(name.len() - 8)),
        names_container(name, tier) <==> name.len() >= 8 && name == "den-"@ + tier + "-"@
            + name.skip(name.len() - 8) && is_short(name.skip(name.len() - 8)),
        names_sandbox(name, tier) <==> name.len() >= 36 && name == tier + "-"@ + name.skip(
            name.len() - 36,
        ) && is_uuid(name.skip(name.len() - 36)),
{
    if is_short(ending) {
        assert forall|i: int| 0 <= i < 8 implies '0' <= #[trigger] ending[i] <= '9' || 'a'
            <= ending[i] <= 'f' by {
            assert(is_hex(ending[i]));
        }
    }
    let tail = name.skip(name.len() - 8);
    if names_volume(name) {
        let s = choose|s: Seq<char>| is_short(s) && name == #[trigger] volume_text(s);
        assert(tail =~= s);
    }
    if name.len() >= 8 && name == "den-vol-"@ + tail && is_short(tail) {
        assert(name == volume_text(tail));
    }
    if names_container(name, tier) {
        let s = choose|s: Seq<char>| is_short(s) && name == #[trigger] container_text(tier, s);
        assert(tail =~= s);
    }
    if name.len() >= 8 && name == "den-"@ + tier + "-"@ + tail && is_short(tail) {
        assert(name == container_text(tier, tail));
    }
    let end = name.skip(name.len() - 36);
    if names_sandbox(name, tier) {
        let u = choose|u: Seq<char>| is_uuid(u) && name == #[trigger] sandbox_id_text(tier, u);
        assert(end =~= u);
    }
    if name.len() >= 36 && name == tier + "-"@ + end && is_uuid(end) {
        assert(name == sandbox_id_text(tier, end));
    }
}

/// Names are made of the tier and of the UUID that was drawn for them.
pub proof fn names_are_made_of_their_draw(
    tier: &str,
    uuid: &str,
    container: String,
    volume: String,
    id: String,
)
    requires
        call_ensures(container_name_of, (tier, uuid), container),
        call_ensures(volume_name_of, (uuid,), volume),
        call_ensures(sandbox_id_of, (tier, uuid), id),
    ensures
        container@ == "den-"@ + tier@ + "-"@ + uuid@.take(8),
        volume@ == "den-vol-"@ + uuid@.take(8),
        id@ == tier@ + "-"@ + uuid@,
{
}

/// Names that are drawn are a tier's, with eight hexadecimal digits or a UUID behind it.
pub proof fn drawn_names_are_of_their_kind(tier: &str, container: String, volume: String, id: String)
    requires
        call_ensures(container_name, (tier,), container),
        call_ensures(volume_name, (), volume),
        call_ensures(sandbox_id, (tier,), id),
    ensures
        container@.len() >= 8 && container@ == "den-"@ + tier@ + "-"@ + container@.skip(
            container@.len() - 8,
        ),
        is_short(container@.skip(container@.len() - 8)),
        volume@.len() >= 8 && volume@ == "den-vol-"@ + volume@.skip(volume@.len() - 8),
        is_short(volume@.skip(volume@.len() - 8)),
        id@.len() >= 36 && id@ == tier@ + "-"@ + id@.skip(id@.len() - 36),
        is_uuid(id@.skip(id@.len() - 36)),
{
    names_are_made_of(tier@, Seq::empty(), Seq::empty(), container@);
    names_are_made_of(tier@, Seq::empty(), Seq::empty(), volume@);
    names_are_made_of(tier@, Seq::empty(), Seq::empty(), id@);
}

} // verus!
