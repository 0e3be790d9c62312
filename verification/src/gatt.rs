//! GATT operations over the handle table: discovery listings, the targets
//! of reads, writes and subscriptions, and what each prints.

use vstd::prelude::*;
use crate::error::GrattError;
use crate::handle_table::{
    chars_in_range_of, is_notifiable, key, notifiable_of, model_uuid, models, normalize_uuid_text,
    rw_target, range_of, services_of, characteristics_of, uuid_matches, GattModel, GattObject,
    HandleTable, INDICATE,
};
use crate::output::{
    fmt_characteristic, fmt_characteristic_interactive, fmt_characteristic_interactive_text,
    fmt_characteristic_text, fmt_descriptor, fmt_descriptor_interactive,
    fmt_descriptor_interactive_text, fmt_descriptor_text, fmt_primary_by_uuid,
    fmt_primary_by_uuid_interactive, fmt_primary_by_uuid_interactive_text,
    fmt_primary_by_uuid_text, fmt_primary_service, fmt_primary_service_interactive,
    fmt_primary_service_interactive_text, fmt_primary_service_text,
};
use crate::text::{chars_of, string_from, strs};
use crate::handle_table::{CharProps, READ, format_uuid128, uuid_text};
use crate::connection::{address_text, address_to_string, AddrType};
use crate::text::{hex4, int_str, join, push_chars, push_hex4, push_int, push_join, push_str, trim_end};
use crate::output::{format_hex_bytes, hex_bytes_text, trim_end_string};
use crate::tables::{
    enum_char_row, enum_desc_row, enum_separator_row, enum_service_row, row_fits, EnumRow, RowPlan,
};

verus! {

/// A listing, or the message that stands for an empty one.
pub open spec fn listing_agrees(r: Result<Vec<String>, String>, s: Result<Seq<Seq<char>>, Seq<char>>) -> bool {
    match r {
        Ok(v) => s == Ok::<Seq<Seq<char>>, Seq<char>>(strs(v@)),
        Err(m) => s == Err::<Seq<Seq<char>>, Seq<char>>(m@),
    }
}

/// A listing, or a GATT error with the given message.
pub open spec fn listing_agrees_gatt(
    r: Result<Vec<String>, GrattError>,
    s: Result<Seq<Seq<char>>, Seq<char>>,
) -> bool {
    match r {
        Ok(v) => s == Ok::<Seq<Seq<char>>, Seq<char>>(strs(v@)),
        Err(e) => e matches GrattError::Gatt(m) && s == Err::<Seq<Seq<char>>, Seq<char>>(m@),
    }
}

// ───────────────────────────── primary services ─────────────────────────────

/// The line of one service in a primary-service listing: the range only
/// when filtering by UUID (and only for matching services).
pub open spec fn primary_line(m: GattModel, filter: Option<Seq<char>>, interactive: bool) -> Seq<
    Seq<char>,
> {
    match m {
        GattModel::Service { uuid, start_handle, end_handle } => match filter {
            Some(f) => if normalize_uuid_text(uuid) == normalize_uuid_text(f) {
                seq![
                    if interactive {
                        fmt_primary_by_uuid_interactive_text(start_handle, end_handle)
                    } else {
                        fmt_primary_by_uuid_text(start_handle, end_handle)
                    },
                ]
            } else {
                seq![]
            },
            None => seq![
                if interactive {
                    fmt_primary_service_interactive_text(start_handle, end_handle, uuid)
                } else {
                    fmt_primary_service_text(start_handle, end_handle, uuid)
                },
            ],
        },
        _ => seq![],
    }
}

/// Lines of a primary-service listing.
pub open spec fn primary_lines(s: Seq<GattModel>, filter: Option<Seq<char>>, interactive: bool) -> Seq<
    Seq<char>,
>
    decreases s.len(),
{
    if s.len() == 0 {
        seq![]
    } else {
        primary_lines(s.drop_last(), filter, interactive) + primary_line(
            s.last(),
            filter,
            interactive,
        )
    }
}

pub open spec fn no_primary_text() -> Seq<char> {
    "Discover all primary services failed: No attribute found within the given range"@
}

/// Non-interactive primary service discovery: lines to print, or the
/// message printed when the device has no services.
pub open spec fn discover_primary_spec(t: Seq<GattModel>, filter: Option<Seq<char>>) -> Result<
    Seq<Seq<char>>,
    Seq<char>,
> {
    if services_of(t).len() == 0 {
        Err(no_primary_text())
    } else {
        Ok(primary_lines(services_of(t), filter, false))
    }
}

/// Interactive primary service discovery; a UUID filter that matches no
/// service is an error too.
pub open spec fn discover_primary_interactive_spec(t: Seq<GattModel>, filter: Option<Seq<char>>) -> Result<
    Seq<Seq<char>>,
    Seq<char>,
> {
    if services_of(t).len() == 0 {
        Err(no_primary_text())
    } else if primary_lines(services_of(t), filter, true).len() == 0 && filter is Some {
        Err("No service UUID found"@)
    } else {
        Ok(primary_lines(services_of(t), filter, true))
    }
}

fn primary_listing(services: &Vec<GattObject>, filter: Option<&str>, interactive: bool) -> (r: Vec<
    String,
>)
    ensures
        strs(r@) == primary_lines(models(services@), crate::handle_table::opt_view(filter), interactive),
{
    let ghost s = models(services@);
    let ghost f = crate::handle_table::opt_view(filter);
    let mut lines: Vec<String> = Vec::new();
    let mut i: usize = 0;
    assert(strs(lines@) =~= primary_lines(s.take(0), f, interactive));
    while i < services.len()
        invariant
            i <= services.len(),
            s == models(services@),
            f == crate::handle_table::opt_view(filter),
            strs(lines@) == primary_lines(s.take(i as int), f, interactive),
        decreases services.len() - i,
    {
        let ghost before = strs(lines@);
        assert(s.take(i + 1).drop_last() =~= s.take(i as int));
        assert(s.take(i + 1).last() == services@[i as int]@);
        match &services[i] {
            GattObject::Service { uuid, start_handle, end_handle } => {
                match filter {
                    Some(fl) => {
                        if crate::text::str_eq(
                            crate::handle_table::normalize_uuid(uuid.as_str()).as_str(),
                            crate::handle_table::normalize_uuid(fl).as_str(),
                        ) {
                            let line = if interactive {
                                fmt_primary_by_uuid_interactive(*start_handle, *end_handle)
                            } else {
                                fmt_primary_by_uuid(*start_handle, *end_handle)
                            };
                            lines.push(line);
                        }
                    },
                    None => {
                        let line = if interactive {
                            fmt_primary_service_interactive(*start_handle, *end_handle, uuid.as_str())
                        } else {
                            fmt_primary_service(*start_handle, *end_handle, uuid.as_str())
                        };
                        lines.push(line);
                    },
                }
            },
            _ => {},
        }
        assert(strs(lines@) =~= before + primary_line(services@[i as int]@, f, interactive));
        i += 1;
    }
    assert(s.take(services.len() as int) =~= s);
    lines
}

/// Discovers the primary services (non-interactive format).  `Err` holds
/// the message printed when there are none.
pub fn discover_primary(table: &HandleTable, uuid_filter: Option<&str>) -> (r: Result<
    Vec<String>,
    String,
>)
    requires
        table.wf(),
    ensures
        listing_agrees(r, discover_primary_spec(table@, crate::handle_table::opt_view(uuid_filter))),
{
    let services = table.services();
    if services.len() == 0 {
        return Err(
            string_from(
                "Discover all primary services failed: No attribute found within the given range",
            ),
        );
    }
    Ok(primary_listing(&services, uuid_filter, false))
}

/// Discovers the primary services (interactive format).
pub fn discover_primary_interactive(table: &HandleTable, uuid_filter: Option<&str>) -> (r: Result<
    Vec<String>,
    GrattError,
>)
    requires
        table.wf(),
    ensures
        listing_agrees_gatt(
            r,
            discover_primary_interactive_spec(table@, crate::handle_table::opt_view(uuid_filter)),
        ),
{
    let services = table.services();
    if services.len() == 0 {
        return Err(
            GrattError::Gatt(
                string_from(
                    "Discover all primary services failed: No attribute found within the given range",
                ),
            ),
        );
    }
    let lines = primary_listing(&services, uuid_filter, true);
    if lines.len() == 0 && uuid_filter.is_some() {
        return Err(GrattError::Gatt(string_from("No service UUID found")));
    }
    Ok(lines)
}

// ───────────────────────────── characteristics ─────────────────────────────

/// The line of one characteristic in a characteristic listing.
pub open spec fn char_line(m: GattModel, interactive: bool) -> Seq<Seq<char>> {
    match m {
        GattModel::Characteristic { uuid, declaration_handle, value_handle, properties } => seq![
            if interactive {
                fmt_characteristic_interactive_text(
                    declaration_handle,
                    properties,
                    value_handle,
                    uuid,
                )
            } else {
                fmt_characteristic_text(declaration_handle, properties, value_handle, uuid)
            },
        ],
        _ => seq![],
    }
}

pub open spec fn char_lines(s: Seq<GattModel>, interactive: bool) -> Seq<Seq<char>>
    decreases s.len(),
{
    if s.len() == 0 {
        seq![]
    } else {
        char_lines(s.drop_last(), interactive) + char_line(s.last(), interactive)
    }
}

pub open spec fn no_chars_text() -> Seq<char> {
    "Discover all characteristics failed: No attribute found within the given range"@
}

/// Characteristic discovery in `start..=end`, optionally by UUID.
pub open spec fn discover_characteristics_spec(
    t: Seq<GattModel>,
    start: u16,
    end: u16,
    filter: Option<Seq<char>>,
    interactive: bool,
) -> Result<Seq<Seq<char>>, Seq<char>> {
    let cs = chars_in_range_of(t, start, end, filter);
    if cs.len() == 0 {
        Err(no_chars_text())
    } else {
        Ok(char_lines(cs, interactive))
    }
}

fn char_listing(chars: &Vec<GattObject>, interactive: bool) -> (r: Vec<String>)
    ensures
        strs(r@) == char_lines(models(chars@), interactive),
{
    let ghost s = models(chars@);
    let mut lines: Vec<String> = Vec::new();
    let mut i: usize = 0;
    assert(strs(lines@) =~= char_lines(s.take(0), interactive));
    while i < chars.len()
        invariant
            i <= chars.len(),
            s == models(chars@),
            strs(lines@) == char_lines(s.take(i as int), interactive),
        decreases chars.len() - i,
    {
        let ghost before = strs(lines@);
        assert(s.take(i + 1).drop_last() =~= s.take(i as int));
        assert(s.take(i + 1).last() == chars@[i as int]@);
        match &chars[i] {
            GattObject::Characteristic { uuid, declaration_handle, value_handle, properties } => {
                let line = if interactive {
                    fmt_characteristic_interactive(
                        *declaration_handle,
                        properties.0,
                        *value_handle,
                        uuid.as_str(),
                    )
                } else {
                    fmt_characteristic(*declaration_handle, properties.0, *value_handle, uuid.as_str())
                };
                lines.push(line);
            },
            _ => {},
        }
        assert(strs(lines@) =~= before + char_line(chars@[i as int]@, interactive));
        i += 1;
    }
    assert(s.take(chars.len() as int) =~= s);
    lines
}

/// Discovers characteristics in a handle range (non-interactive format).
/// `Err` holds the message printed when there are none.
pub fn discover_characteristics(
    table: &HandleTable,
    start: u16,
    end: u16,
    uuid_filter: Option<&str>,
) -> (r: Result<Vec<String>, String>)
    requires
        table.wf(),
        start <= end,
    ensures
        listing_agrees(
            r,
            discover_characteristics_spec(
                table@,
                start,
                end,
                crate::handle_table::opt_view(uuid_filter),
                false,
            ),
        ),
{
    let chars = table.characteristics_in_range(start, end, uuid_filter);
    if chars.len() == 0 {
        return Err(
            string_from(
                "Discover all characteristics failed: No attribute found within the given range",
            ),
        );
    }
    Ok(char_listing(&chars, false))
}

/// Discovers characteristics in a handle range (interactive format).
pub fn discover_characteristics_interactive(
    table: &HandleTable,
    start: u16,
    end: u16,
    uuid_filter: Option<&str>,
) -> (r: Result<Vec<String>, GrattError>)
    requires
        table.wf(),
        start <= end,
    ensures
        listing_agrees_gatt(
            r,
            discover_characteristics_spec(
                table@,
                start,
                end,
                crate::handle_table::opt_view(uuid_filter),
                true,
            ),
        ),
{
    let chars = table.characteristics_in_range(start, end, uuid_filter);
    if chars.len() == 0 {
        return Err(
            GrattError::Gatt(
                string_from(
                    "Discover all characteristics failed: No attribute found within the given range",
                ),
            ),
        );
    }
    Ok(char_listing(&chars, true))
}

// ───────────────────────────── descriptors ─────────────────────────────

/// The line of one object in a descriptor listing: its handle and UUID.
pub open spec fn desc_line(m: GattModel, interactive: bool) -> Seq<char> {
    if interactive {
        fmt_descriptor_interactive_text(key(m), model_uuid(m))
    } else {
        fmt_descriptor_text(key(m), model_uuid(m))
    }
}

pub open spec fn no_desc_text() -> Seq<char> {
    "Discover descriptors failed: No attribute found within the given range"@
}

/// Descriptor discovery in `start..=end`: every object there is listed.
pub open spec fn discover_descriptors_spec(
    t: Seq<GattModel>,
    start: u16,
    end: u16,
    interactive: bool,
) -> Result<Seq<Seq<char>>, Seq<char>> {
    let os = range_of(t, start, end);
    if os.len() == 0 {
        Err(no_desc_text())
    } else {
        Ok(os.map_values(|m: GattModel| desc_line(m, interactive)))
    }
}

fn desc_listing(objects: &Vec<GattObject>, interactive: bool) -> (r: Vec<String>)
    ensures
        strs(r@) == models(objects@).map_values(|m: GattModel| desc_line(m, interactive)),
{
    let mut lines: Vec<String> = Vec::new();
    let mut i: usize = 0;
    while i < objects.len()
        invariant
            i <= objects.len(),
            strs(lines@) =~= models(objects@).take(i as int).map_values(
                |m: GattModel| desc_line(m, interactive),
            ),
        decreases objects.len() - i,
    {
        let obj = &objects[i];
        assert(models(objects@)[i as int] == obj@);
        let ghost before = strs(lines@);
        let h = obj.handle();
        let line = if interactive {
            fmt_descriptor_interactive(h, obj.uuid().as_str())
        } else {
            fmt_descriptor(h, obj.uuid().as_str())
        };
        lines.push(line);
        assert(strs(lines@) =~= before.push(desc_line(obj@, interactive)));
        assert(models(objects@).take(i + 1).map_values(|m: GattModel| desc_line(m, interactive))
            =~= models(objects@).take(i as int).map_values(|m: GattModel| desc_line(m, interactive)).push(
            desc_line(obj@, interactive),
        ));
        i += 1;
    }
    assert(models(objects@).take(objects.len() as int) =~= models(objects@));
    lines
}

/// Discovers descriptors in a handle range (non-interactive format).
pub fn discover_descriptors(table: &HandleTable, start: u16, end: u16) -> (r: Result<
    Vec<String>,
    String,
>)
    requires
        table.wf(),
        start <= end,
    ensures
        listing_agrees(r, discover_descriptors_spec(table@, start, end, false)),
{
    let objects = table.descriptors_in_range(start, end);
    if objects.len() == 0 {
        return Err(
            string_from("Discover descriptors failed: No attribute found within the given range"),
        );
    }
    Ok(desc_listing(&objects, false))
}

/// Discovers descriptors in a handle range (interactive format).
pub fn discover_descriptors_interactive(table: &HandleTable, start: u16, end: u16) -> (r: Result<
    Vec<String>,
    GrattError,
>)
    requires
        table.wf(),
        start <= end,
    ensures
        listing_agrees_gatt(r, discover_descriptors_spec(table@, start, end, true)),
{
    let objects = table.descriptors_in_range(start, end);
    if objects.len() == 0 {
        return Err(
            GrattError::Gatt(
                string_from("Discover descriptors failed: No attribute found within the given range"),
            ),
        );
    }
    Ok(desc_listing(&objects, true))
}

/// Included services are not discovered through BlueZ; the answer is
/// always that there are none.
pub fn find_included_interactive(table: &HandleTable, start: u16, end: u16) -> (r: Result<
    Vec<String>,
    GrattError,
>)
    ensures
        r matches Ok(v) && strs(v@) == seq!["No included services found for this range"@],
{
    let mut v: Vec<String> = Vec::new();
    v.push(string_from("No included services found for this range"));
    assert(strs(v@) =~= seq!["No included services found for this range"@]);
    Ok(v)
}


// ───────────────────────────── reads, writes, subscriptions ─────────────────────────────

/// An attribute that can be read or written: a characteristic (by its
/// declaration and value handles) or a descriptor.
#[derive(Debug, Clone, Copy, PartialEq, Eq, Structural)]
pub enum AttrRef {
    Characteristic { declaration_handle: u16, value_handle: u16 },
    Descriptor { handle: u16 },
}

/// The readable/writable attribute an entry stands for, if any.
pub open spec fn attr_ref_of(m: GattModel) -> Option<AttrRef> {
    match m {
        GattModel::Characteristic { declaration_handle, value_handle, .. } => Some(
            AttrRef::Characteristic { declaration_handle, value_handle },
        ),
        GattModel::Descriptor { handle, .. } => Some(AttrRef::Descriptor { handle }),
        GattModel::Service { .. } => None,
    }
}

/// The attribute that a read or write of handle `h` goes to.
pub open spec fn target_of(t: Seq<GattModel>, h: u16) -> Option<AttrRef> {
    match rw_target(t, h) {
        Some(m) => attr_ref_of(m),
        None => None,
    }
}

fn attr_ref(o: &GattObject) -> (r: Option<AttrRef>)
    ensures
        r == attr_ref_of(o@),
{
    match o {
        GattObject::Characteristic { declaration_handle, value_handle, .. } => Some(
            AttrRef::Characteristic {
                declaration_handle: *declaration_handle,
                value_handle: *value_handle,
            },
        ),
        GattObject::Descriptor { handle, .. } => Some(AttrRef::Descriptor { handle: *handle }),
        GattObject::Service { .. } => None,
    }
}

fn rw_attr(table: &HandleTable, handle: u16) -> (r: Option<AttrRef>)
    requires
        table.wf(),
    ensures
        r == target_of(table@, handle),
{
    match table.find_rw_object(handle) {
        Some(o) => attr_ref(o),
        None => None,
    }
}

/// What a read of `handle` reads; a handle that names neither a
/// characteristic value nor a descriptor is a GATT error.
pub fn read_target(table: &HandleTable, handle: u16) -> (r: Result<AttrRef, GrattError>)
    requires
        table.wf(),
    ensures
        target_of(table@, handle) matches Some(a) ==> r == Ok::<AttrRef, GrattError>(a),
        target_of(table@, handle) is None ==> (r matches Err(GrattError::Gatt(m)) && m@
            == "Characteristic value/descriptor read failed: Invalid handle"@),
{
    match rw_attr(table, handle) {
        Some(a) => Ok(a),
        None => Err(
            GrattError::Gatt(string_from("Characteristic value/descriptor read failed: Invalid handle")),
        ),
    }
}

/// What a write to `handle` writes; without such an attribute the handle
/// is refused.
pub fn write_target(table: &HandleTable, handle: u16) -> (r: Result<AttrRef, GrattError>)
    requires
        table.wf(),
    ensures
        target_of(table@, handle) matches Some(a) ==> r == Ok::<AttrRef, GrattError>(a),
        target_of(table@, handle) is None ==> (r matches Err(GrattError::InvalidHandle(m)) && m@
            == "A valid handle is required"@),
{
    match rw_attr(table, handle) {
        Some(a) => Ok(a),
        None => Err(GrattError::InvalidHandle(string_from("A valid handle is required"))),
    }
}

/// Characteristic references of a list of characteristic entries.
pub open spec fn char_refs(s: Seq<GattModel>) -> Seq<AttrRef> {
    s.map_values(|m: GattModel| attr_ref_of(m).unwrap())
}

fn refs_of(objs: &Vec<GattObject>) -> (r: Vec<AttrRef>)
    requires
        forall|i: int| 0 <= i < objs@.len() ==> (#[trigger] objs@[i])@ is Characteristic,
    ensures
        r@ == char_refs(models(objs@)),
{
    let mut r: Vec<AttrRef> = Vec::new();
    let mut i: usize = 0;
    while i < objs.len()
        invariant
            i <= objs.len(),
            forall|i: int| 0 <= i < objs@.len() ==> (#[trigger] objs@[i])@ is Characteristic,
            r@ =~= char_refs(models(objs@).take(i as int)),
        decreases objs.len() - i,
    {
        let a = attr_ref(&objs[i]);
        assert(models(objs@)[i as int] == objs@[i as int]@);
        match a {
            Some(x) => r.push(x),
            None => {},
        }
        i += 1;
    }
    assert(models(objs@).take(objs.len() as int) =~= models(objs@));
    r
}

/// Characteristics read by `char-read-uuid`; none is a GATT error.
pub fn read_by_uuid_targets(table: &HandleTable, uuid: &str, start: u16, end: u16) -> (r: Result<
    Vec<AttrRef>,
    GrattError,
>)
    requires
        table.wf(),
        start <= end,
    ensures
        chars_in_range_of(table@, start, end, Some(uuid@)).len() == 0 ==> (r matches Err(
            GrattError::Gatt(m),
        ) && m@ == "Read characteristics by UUID failed: No attribute found within the given range"@),
        chars_in_range_of(table@, start, end, Some(uuid@)).len() > 0 ==> (r matches Ok(v) && v@
            == char_refs(chars_in_range_of(table@, start, end, Some(uuid@)))),
{
    let chars = table.chars_by_uuid_in_range(uuid, start, end);
    if chars.len() == 0 {
        return Err(
            GrattError::Gatt(
                string_from(
                    "Read characteristics by UUID failed: No attribute found within the given range",
                ),
            ),
        );
    }
    proof {
        let s = table@;
        broadcast use vstd::seq_lib::group_filter_ensures;
        assert forall|i: int| 0 <= i < chars@.len() implies (#[trigger] chars@[i])@ is Characteristic by {
            assert(models(chars@)[i] == chars@[i]@);
        }
    }
    Ok(refs_of(&chars))
}

/// A characteristic to subscribe to, and whether it indicates (else it
/// notifies).
#[derive(Debug, Clone, Copy, PartialEq, Eq, Structural)]
pub struct NotifyTarget {
    pub declaration_handle: u16,
    pub value_handle: u16,
    pub is_indication: bool,
}

/// Subscription target of a characteristic entry.
pub open spec fn notify_target_of(m: GattModel) -> NotifyTarget {
    match m {
        GattModel::Characteristic { declaration_handle, value_handle, properties, .. } =>
            NotifyTarget {
            declaration_handle,
            value_handle,
            is_indication: properties & INDICATE != 0,
        },
        _ => NotifyTarget { declaration_handle: 0, value_handle: 0, is_indication: false },
    }
}

/// Every characteristic is subscribed to, whether or not it advertises
/// notification (some devices notify on handles that do not).
pub fn subscription_targets(table: &HandleTable) -> (r: Vec<NotifyTarget>)
    requires
        table.wf(),
    ensures
        r@ == characteristics_of(table@).map_values(|m: GattModel| notify_target_of(m)),
{
    let chars = table.all_characteristics();
    let mut r: Vec<NotifyTarget> = Vec::new();
    let mut i: usize = 0;
    while i < chars.len()
        invariant
            i <= chars.len(),
            models(chars@) == characteristics_of(table@),
            r@ =~= models(chars@).take(i as int).map_values(|m: GattModel| notify_target_of(m)),
        decreases chars.len() - i,
    {
        assert(models(chars@)[i as int] == chars@[i as int]@);
        let t = match &chars[i] {
            GattObject::Characteristic { declaration_handle, value_handle, properties, .. } =>
                NotifyTarget {
                declaration_handle: *declaration_handle,
                value_handle: *value_handle,
                is_indication: (properties.0 & INDICATE) != 0,
            },
            _ => NotifyTarget { declaration_handle: 0, value_handle: 0, is_indication: false },
        };
        r.push(t);
        i += 1;
    }
    assert(models(chars@).take(chars.len() as int) =~= models(chars@));
    r
}

/// The interactive shell subscribes only to the characteristics that
/// advertise notification or indication.
pub fn interactive_subscription_targets(table: &HandleTable) -> (r: Vec<NotifyTarget>)
    requires
        table.wf(),
    ensures
        r@ == notifiable_of(table@).map_values(|m: GattModel| notify_target_of(m)),
{
    let chars = table.notifiable_characteristics();
    let mut r: Vec<NotifyTarget> = Vec::new();
    let mut i: usize = 0;
    while i < chars.len()
        invariant
            i <= chars.len(),
            models(chars@) == notifiable_of(table@),
            r@ =~= models(chars@).take(i as int).map_values(|m: GattModel| notify_target_of(m)),
        decreases chars.len() - i,
    {
        assert(models(chars@)[i as int] == chars@[i as int]@);
        let t = match &chars[i] {
            GattObject::Characteristic { declaration_handle, value_handle, properties, .. } =>
                NotifyTarget {
                declaration_handle: *declaration_handle,
                value_handle: *value_handle,
                is_indication: (properties.0 & INDICATE) != 0,
            },
            _ => NotifyTarget { declaration_handle: 0, value_handle: 0, is_indication: false },
        };
        r.push(t);
        i += 1;
    }
    assert(models(chars@).take(chars.len() as int) =~= models(chars@));
    r
}

/// The characteristic whose MTU is asked: the first one in handle order.
pub fn mtu_target(table: &HandleTable) -> (r: Result<u16, GrattError>)
    requires
        table.wf(),
    ensures
        characteristics_of(table@).len() > 0 ==> r == Ok::<u16, GrattError>(
            key(characteristics_of(table@)[0]),
        ),
        characteristics_of(table@).len() == 0 ==> (r matches Err(GrattError::Gatt(m)) && m@
            == "No characteristics available to query MTU"@),
{
    let chars = table.all_characteristics();
    if chars.len() == 0 {
        return Err(GrattError::Gatt(string_from("No characteristics available to query MTU")));
    }
    assert(models(chars@)[0] == chars@[0]@);
    Ok(chars[0].handle())
}

} // verus!

verus! {

// ───────────────────────────── enumerate ─────────────────────────────

/// Characteristics whose value the table shows: the readable ones.  A
/// characteristic that only indicates has no READ bit, so it is skipped.
pub open spec fn wants_read(props: u8) -> bool {
    props & READ != 0
}

/// The value read for handle `h`: the first read of it.
pub open spec fn read_value(reads: Seq<(u16, Seq<u8>)>, h: u16) -> Option<Seq<u8>>
    decreases reads.len(),
{
    if reads.len() == 0 {
        None
    } else if reads[0].0 == h {
        Some(reads[0].1)
    } else {
        read_value(reads.drop_first(), h)
    }
}

/// The views of the values read.
pub open spec fn reads_view(v: Seq<(u16, Vec<u8>)>) -> Seq<(u16, Seq<u8>)> {
    v.map_values(|p: (u16, Vec<u8>)| (p.0, p.1@))
}

/// Just below the nearest later characteristic declaration, if any.
pub open spec fn later_decl_bound(cs: Seq<GattModel>, d: u16) -> Option<u16>
    decreases cs.len(),
{
    if cs.len() == 0 {
        None
    } else {
        let m = later_decl_bound(cs.drop_last(), d);
        match cs.last() {
            GattModel::Characteristic { declaration_handle: dh, .. } => if dh > d {
                match m {
                    Some(x) => Some(
                        if x <= dh - 1 {
                            x
                        } else {
                            (dh - 1) as u16
                        },
                    ),
                    None => Some((dh - 1) as u16),
                }
            } else {
                m
            },
            _ => m,
        }
    }
}

/// `m` is a characteristic declared after handle `d`.
pub open spec fn declared_after(m: GattModel, d: u16) -> bool {
    m matches GattModel::Characteristic { declaration_handle: dh, .. } && dh > d
}

/// The declaration handle of a characteristic.
pub open spec fn declaration_of(m: GattModel) -> int {
    match m {
        GattModel::Characteristic { declaration_handle: dh, .. } => dh as int,
        _ => 0,
    }
}

/// The bound is one below the lowest declaration handle, above `d`, of
/// the characteristics in `cs`, and there is none when no characteristic
/// is declared after `d`: a descriptor is listed under the characteristic
/// it follows, and under no later one.
pub proof fn lemma_later_decl_bound(cs: Seq<GattModel>, d: u16)
    ensures
        later_decl_bound(cs, d) is None <==> forall|i: int|
            0 <= i < cs.len() ==> !declared_after(#[trigger] cs[i], d),
        later_decl_bound(cs, d) matches Some(x) ==> forall|i: int|
            0 <= i < cs.len() && declared_after(#[trigger] cs[i], d) ==> x <= declaration_of(cs[i])
                - 1,
        later_decl_bound(cs, d) matches Some(x) ==> exists|i: int|
            0 <= i < cs.len() && declared_after(#[trigger] cs[i], d) && x == declaration_of(cs[i])
                - 1,
    decreases cs.len(),
{
    if cs.len() > 0 {
        let p = cs.drop_last();
        let n = cs.len() - 1;
        lemma_later_decl_bound(p, d);
        assert forall|i: int| 0 <= i < n implies #[trigger] cs[i] == p[i] by {}
        let r = later_decl_bound(cs, d);
        let m = later_decl_bound(p, d);
        if declared_after(cs[n], d) {
            let dh = declaration_of(cs[n]);
            match m {
                Some(x) => {
                    let w = choose|i: int|
                        0 <= i < p.len() && declared_after(#[trigger] p[i], d) && x
                            == declaration_of(p[i]) - 1;
                    assert(cs[w] == p[w]);
                    if x <= dh - 1 {
                        assert(r == Some(x));
                    } else {
                        assert(r == Some((dh - 1) as u16));
                    }
                },
                None => {
                    assert(r == Some((dh - 1) as u16));
                },
            }
        } else {
            assert(r == m);
            match m {
                Some(x) => {
                    let w = choose|i: int|
                        0 <= i < p.len() && declared_after(#[trigger] p[i], d) && x
                            == declaration_of(p[i]) - 1;
                    assert(cs[w] == p[w]);
                },
                None => {},
            }
        }
    }
}

/// Rows of the descriptors among `ms`.
pub open spec fn desc_plans(ms: Seq<GattModel>) -> Seq<RowPlan>
    decreases ms.len(),
{
    if ms.len() == 0 {
        seq![]
    } else {
        desc_plans(ms.drop_last()) + match ms.last() {
            GattModel::Descriptor { uuid, handle } => seq![RowPlan::Desc { handle, uuid }],
            _ => seq![],
        }
    }
}

/// The rows of one characteristic: itself, then the descriptors from its
/// value handle to just before the next characteristic (or the service end).
pub open spec fn char_block(
    t: Seq<GattModel>,
    ch: GattModel,
    cs: Seq<GattModel>,
    end: u16,
    reads: Seq<(u16, Seq<u8>)>,
) -> Seq<RowPlan> {
    match ch {
        GattModel::Characteristic { uuid, declaration_handle, value_handle, properties } => {
            let data = if wants_read(properties) {
                read_value(reads, value_handle)
            } else {
                None
            };
            let ds = (value_handle + 1) as u16;
            let de = match later_decl_bound(cs, declaration_handle) {
                Some(x) => x,
                None => end,
            };
            seq![RowPlan::Char { value_handle, uuid, properties, data }] + (if ds <= de {
                desc_plans(range_of(t, ds, de))
            } else {
                seq![]
            })
        },
        _ => seq![],
    }
}

/// The rows of the characteristics `pre`, out of the service's `cs`.
pub open spec fn char_blocks(
    t: Seq<GattModel>,
    pre: Seq<GattModel>,
    cs: Seq<GattModel>,
    end: u16,
    reads: Seq<(u16, Seq<u8>)>,
) -> Seq<RowPlan>
    decreases pre.len(),
{
    if pre.len() == 0 {
        seq![]
    } else {
        char_blocks(t, pre.drop_last(), cs, end, reads) + char_block(t, pre.last(), cs, end, reads)
    }
}

/// The rows of one service: itself, its characteristics, a separator.
pub open spec fn service_plans(t: Seq<GattModel>, svc: GattModel, reads: Seq<(u16, Seq<u8>)>) -> Seq<
    RowPlan,
> {
    match svc {
        GattModel::Service { uuid, start_handle, end_handle } => {
            let cs = chars_in_range_of(t, start_handle, end_handle, None);
            seq![RowPlan::Service { start: start_handle, end: end_handle, uuid }] + char_blocks(
                t,
                cs,
                cs,
                end_handle,
                reads,
            ) + seq![RowPlan::Separator]
        },
        _ => seq![],
    }
}

/// The rows of the services `svcs`.
pub open spec fn all_plans(t: Seq<GattModel>, svcs: Seq<GattModel>, reads: Seq<(u16, Seq<u8>)>) -> Seq<
    RowPlan,
>
    decreases svcs.len(),
{
    if svcs.len() == 0 {
        seq![]
    } else {
        all_plans(t, svcs.drop_last(), reads) + service_plans(t, svcs.last(), reads)
    }
}

/// The rows of the enumerate table, the trailing separator removed; none
/// when the device has no services.
pub open spec fn enumerate_plan(t: Seq<GattModel>, reads: Seq<(u16, Seq<u8>)>) -> Option<
    Seq<RowPlan>,
> {
    if services_of(t).len() == 0 {
        None
    } else {
        Some(all_plans(t, services_of(t), reads).drop_last())
    }
}

/// Services have ordered ranges and their characteristics' value handles
/// are below `0xffff` (the descriptors after them start one further).
pub open spec fn enumerate_ok(t: Seq<GattModel>) -> bool {
    forall|i: int|
        0 <= i < services_of(t).len() ==> #[trigger] service_ok(t, services_of(t)[i])
}

pub open spec fn service_ok(t: Seq<GattModel>, s: GattModel) -> bool {
    match s {
        GattModel::Service { start_handle, end_handle, .. } => {
            &&& start_handle <= end_handle
            &&& forall|j: int|
                0 <= j < chars_in_range_of(t, start_handle, end_handle, None).len() ==> (
                #[trigger] chars_in_range_of(t, start_handle, end_handle, None)[j] matches GattModel::Characteristic {
                    value_handle,
                    ..
                } && value_handle < 0xffff)
        },
        _ => true,
    }
}

/// Whether a service can be enumerated: its range is ordered and none of
/// its characteristics has its value at the last handle.
fn service_ok_check(table: &HandleTable, svc: &GattObject) -> (r: bool)
    requires
        table.wf(),
    ensures
        r == service_ok(table@, svc@),
{
    match svc {
        GattObject::Service { start_handle, end_handle, .. } => {
            if *start_handle > *end_handle {
                return false;
            }
            let chars = table.characteristics_in_range(*start_handle, *end_handle, None);
            let ghost cs = chars_in_range_of(table@, *start_handle, *end_handle, None);
            assert(crate::handle_table::opt_view(None) == None::<Seq<char>>);
            assert(service_ok(table@, svc@) == (forall|k: int|
                0 <= k < cs.len() ==> (#[trigger] cs[k] matches GattModel::Characteristic {
                    value_handle,
                    ..
                } && value_handle < 0xffff)));
            let mut j: usize = 0;
            while j < chars.len()
                invariant
                    j <= chars.len(),
                    models(chars@) == cs,
                    service_ok(table@, svc@) == (forall|k: int|
                        0 <= k < cs.len() ==> (#[trigger] cs[k] matches GattModel::Characteristic {
                            value_handle,
                            ..
                        } && value_handle < 0xffff)),
                    forall|k: int|
                        0 <= k < j ==> (#[trigger] cs[k] matches GattModel::Characteristic {
                            value_handle,
                            ..
                        } && value_handle < 0xffff),
                decreases chars.len() - j,
            {
                assert(cs[j as int] == chars@[j as int]@);
                match &chars[j] {
                    GattObject::Characteristic { value_handle, .. } => {
                        if *value_handle == 0xffff {
                            return false;
                        }
                    },
                    _ => {
                        return false;
                    },
                }
                j += 1;
            }
            true
        },
        _ => true,
    }
}

/// Whether the table can be enumerated (what `enumerate_rows` and
/// `enumerate_read_targets` require).
pub fn enumerate_ok_check(table: &HandleTable) -> (r: bool)
    requires
        table.wf(),
    ensures
        r == enumerate_ok(table@),
{
    let services = table.services();
    let ghost ss = services_of(table@);
    let mut i: usize = 0;
    while i < services.len()
        invariant
            i <= services.len(),
            models(services@) == ss,
            ss == services_of(table@),
            table.wf(),
            forall|k: int| 0 <= k < i ==> #[trigger] service_ok(table@, ss[k]),
        decreases services.len() - i,
    {
        assert(ss[i as int] == services@[i as int]@);
        if !service_ok_check(table, &services[i]) {
            return false;
        }
        i += 1;
    }
    true
}

/// Rows hold what their plans say, one for one.
pub open spec fn rows_fit(rows: Seq<EnumRow>, plans: Seq<RowPlan>) -> bool {
    rows.len() == plans.len() && forall|i: int| 0 <= i < rows.len() ==> #[trigger] row_fits(
        rows[i]@,
        plans[i],
    )
}

fn push_row(rows: &mut Vec<EnumRow>, row: EnumRow, Ghost(plans): Ghost<Seq<RowPlan>>, Ghost(p): Ghost<RowPlan>)
    requires
        rows_fit(old(rows)@, plans),
        row_fits(row@, p),
    ensures
        rows_fit(final(rows)@, plans.push(p)),
{
    rows.push(row);
    assert forall|i: int| 0 <= i < rows@.len() implies #[trigger] row_fits(rows@[i]@, plans.push(p)[i]) by {
        if i < plans.len() {
            assert(row_fits(old(rows)@[i]@, plans[i]));
        }
    }
}

/// The value read for handle `h`, if any.
fn find_read(reads: &Vec<(u16, Vec<u8>)>, h: u16) -> (r: Option<&Vec<u8>>)
    ensures
        match r {
            Some(v) => read_value(reads_view(reads@), h) == Some(v@),
            None => read_value(reads_view(reads@), h) is None,
        },
{
    let ghost rv = reads_view(reads@);
    let mut i: usize = 0;
    assert(rv.skip(0) =~= rv);
    while i < reads.len()
        invariant
            i <= reads.len(),
            rv == reads_view(reads@),
            read_value(rv, h) == read_value(rv.skip(i as int), h),
        decreases reads.len() - i,
    {
        assert(rv.skip(i as int)[0] == (reads@[i as int].0, reads@[i as int].1@));
        assert(rv.skip(i as int).drop_first() =~= rv.skip(i + 1));
        if reads[i].0 == h {
            return Some(&reads[i].1);
        }
        i += 1;
    }
    assert(rv.skip(i as int).len() == 0);
    None
}

/// The nearest later declaration's handle minus one, if any.
fn later_bound(chars: &Vec<GattObject>, d: u16) -> (r: Option<u16>)
    ensures
        r == later_decl_bound(models(chars@), d),
{
    let ghost ms = models(chars@);
    let mut m: Option<u16> = None;
    let mut k: usize = 0;
    while k < chars.len()
        invariant
            k <= chars.len(),
            ms == models(chars@),
            m == later_decl_bound(ms.take(k as int), d),
        decreases chars.len() - k,
    {
        proof {
            let t = ms.take(k + 1);
            assert(t.drop_last() =~= ms.take(k as int));
            assert(t.last() == chars@[k as int]@);
        }
        match &chars[k] {
            GattObject::Characteristic { declaration_handle, .. } => {
                let dh = *declaration_handle;
                if dh > d {
                    m = match m {
                        Some(x) => Some(
                            if x <= dh - 1 {
                                x
                            } else {
                                dh - 1
                            },
                        ),
                        None => Some(dh - 1),
                    };
                }
            },
            _ => {},
        }
        k += 1;
    }
    assert(ms.take(chars.len() as int) =~= ms);
    m
}

/// Appends the rows of one characteristic.
fn push_char_block(
    rows: &mut Vec<EnumRow>,
    table: &HandleTable,
    ch: &GattObject,
    chars: &Vec<GattObject>,
    end: u16,
    reads: &Vec<(u16, Vec<u8>)>,
    Ghost(plans): Ghost<Seq<RowPlan>>,
)
    requires
        table.wf(),
        rows_fit(old(rows)@, plans),
        ch@ matches GattModel::Characteristic { value_handle, .. } ==> value_handle < 0xffff,
    ensures
        rows_fit(
            final(rows)@,
            plans + char_block(table@, ch@, models(chars@), end, reads_view(reads@)),
        ),
{
    match ch {
        GattObject::Characteristic { uuid, declaration_handle, value_handle, properties } => {
            let ghost t = table@;
            let ghost cs = models(chars@);
            let ghost rv = reads_view(reads@);
            let ghost block = char_block(t, ch@, cs, end, rv);
            let props_str = properties.to_string();
            let want = (properties.0 & READ) != 0;
            let data: Option<&Vec<u8>> = if want {
                find_read(reads, *value_handle)
            } else {
                None
            };
            let row = match data {
                Some(v) => enum_char_row(*value_handle, uuid.as_str(), props_str.as_str(), Some(v.as_slice())),
                None => enum_char_row(*value_handle, uuid.as_str(), props_str.as_str(), None),
            };
            let ghost dv: Option<Seq<u8>> = match data {
                Some(v) => Some(v@),
                None => None,
            };
            let ghost cp = RowPlan::Char {
                value_handle: *value_handle,
                uuid: uuid@,
                properties: properties.0,
                data: dv,
            };
            assert(dv == (if wants_read(properties.0) {
                read_value(rv, *value_handle)
            } else {
                None
            }));
            assert(row_fits(row@, cp));
            push_row(rows, row, Ghost(plans), Ghost(cp));
            let ds = *value_handle + 1;
            let de = match later_bound(chars, *declaration_handle) {
                Some(x) => x,
                None => end,
            };
            let ghost base = plans.push(cp);
            if ds <= de {
                let descs = table.descriptors_in_range(ds, de);
                let ghost dm = models(descs@);
                let mut k: usize = 0;
                while k < descs.len()
                    invariant
                        k <= descs.len(),
                        dm == models(descs@),
                        rows_fit(rows@, base + desc_plans(dm.take(k as int))),
                    decreases descs.len() - k,
                {
                    proof {
                        let tk = dm.take(k + 1);
                        assert(tk.drop_last() =~= dm.take(k as int));
                        assert(tk.last() == descs@[k as int]@);
                    }
                    match &descs[k] {
                        GattObject::Descriptor { uuid: du, handle: dh } => {
                            let dr = enum_desc_row(*dh, du.as_str());
                            let ghost dp = RowPlan::Desc { handle: *dh, uuid: du@ };
                            push_row(rows, dr, Ghost(base + desc_plans(dm.take(k as int))), Ghost(dp));
                            assert(base + desc_plans(dm.take(k + 1)) =~= (base + desc_plans(
                                dm.take(k as int),
                            )).push(dp));
                        },
                        _ => {
                            assert(desc_plans(dm.take(k + 1)) =~= desc_plans(dm.take(k as int)));
                        },
                    }
                    k += 1;
                }
                assert(dm.take(descs.len() as int) =~= dm);
                assert(plans + block =~= base + desc_plans(dm));
            } else {
                assert(plans + block =~= base);
            }
        },
        _ => {
            assert(plans + char_block(table@, ch@, models(chars@), end, reads_view(reads@)) =~= plans);
        },
    }
}



/// Appends the rows of one service.
fn push_service_block(
    rows: &mut Vec<EnumRow>,
    table: &HandleTable,
    svc: &GattObject,
    reads: &Vec<(u16, Vec<u8>)>,
    Ghost(plans): Ghost<Seq<RowPlan>>,
)
    requires
        table.wf(),
        rows_fit(old(rows)@, plans),
        service_ok(table@, svc@),
    ensures
        rows_fit(final(rows)@, plans + service_plans(table@, svc@, reads_view(reads@))),
{
    match svc {
        GattObject::Service { uuid, start_handle, end_handle } => {
            let ghost t = table@;
            let ghost rv = reads_view(reads@);
            let ghost sp = RowPlan::Service { start: *start_handle, end: *end_handle, uuid: uuid@ };
            push_row(rows, enum_service_row(*start_handle, *end_handle, uuid.as_str()), Ghost(plans), Ghost(sp));
            let chars = table.characteristics_in_range(*start_handle, *end_handle, None);
            let ghost cs = models(chars@);
            assert(cs == chars_in_range_of(t, *start_handle, *end_handle, None));
            let ghost base = plans.push(sp);
            let mut j: usize = 0;
            while j < chars.len()
                invariant
                    j <= chars.len(),
                    table.wf(),
                    t == table@,
                    rv == reads_view(reads@),
                    cs == models(chars@),
                    cs == chars_in_range_of(t, *start_handle, *end_handle, None),
                    service_ok(t, svc@),
                    svc@ == (GattModel::Service { uuid: uuid@, start_handle: *start_handle, end_handle: *end_handle }),
                    rows_fit(rows@, base + char_blocks(t, cs.take(j as int), cs, *end_handle, rv)),
                decreases chars.len() - j,
            {
                proof {
                    let tj = cs.take(j + 1);
                    assert(tj.drop_last() =~= cs.take(j as int));
                    assert(tj.last() == chars@[j as int]@);
                    assert(cs[j as int] == chars@[j as int]@);
                }
                push_char_block(
                    rows,
                    table,
                    &chars[j],
                    &chars,
                    *end_handle,
                    reads,
                    Ghost(base + char_blocks(t, cs.take(j as int), cs, *end_handle, rv)),
                );
                assert(base + char_blocks(t, cs.take(j + 1), cs, *end_handle, rv) =~= base
                    + char_blocks(t, cs.take(j as int), cs, *end_handle, rv) + char_block(
                    t,
                    chars@[j as int]@,
                    cs,
                    *end_handle,
                    rv,
                ));
                j += 1;
            }
            assert(cs.take(chars.len() as int) =~= cs);
            let ghost before_sep = base + char_blocks(t, cs, cs, *end_handle, rv);
            push_row(rows, enum_separator_row(), Ghost(before_sep), Ghost(RowPlan::Separator));
            assert(plans + service_plans(t, svc@, rv) =~= before_sep.push(RowPlan::Separator));
        },
        _ => {
            assert(plans + service_plans(table@, svc@, reads_view(reads@)) =~= plans);
        },
    }
}

/// The rows of the enumerate table, given the values read for the
/// characteristics that [`enumerate_read_targets`] lists; `None` when the
/// device has no services.
pub fn enumerate_rows(table: &HandleTable, reads: &Vec<(u16, Vec<u8>)>) -> (r: Option<Vec<EnumRow>>)
    requires
        table.wf(),
        enumerate_ok(table@),
    ensures
        match enumerate_plan(table@, reads_view(reads@)) {
            None => r is None,
            Some(p) => r matches Some(rows) && rows_fit(rows@, p),
        },
{
    let ghost t = table@;
    let ghost rv = reads_view(reads@);
    let services = table.services();
    let ghost ss = models(services@);
    if services.len() == 0 {
        return None;
    }
    let mut rows: Vec<EnumRow> = Vec::new();
    let mut i: usize = 0;
    while i < services.len()
        invariant
            i <= services.len(),
            table.wf(),
            t == table@,
            rv == reads_view(reads@),
            ss == models(services@),
            ss == services_of(t),
            enumerate_ok(t),
            rows_fit(rows@, all_plans(t, ss.take(i as int), rv)),
        decreases services.len() - i,
    {
        proof {
            let ti = ss.take(i + 1);
            assert(ti.drop_last() =~= ss.take(i as int));
            assert(ti.last() == services@[i as int]@);
            assert(ss[i as int] == services@[i as int]@);
            assert(service_ok(t, ss[i as int]));
        }
        push_service_block(&mut rows, table, &services[i], reads, Ghost(all_plans(t, ss.take(i as int), rv)));
        i += 1;
    }
    assert(ss.take(services.len() as int) =~= ss);
    let ghost all = all_plans(t, ss, rv);
    // The last row is the separator after the last service.
    let n = rows.len();
    proof {
        assert forall|k: int| 0 <= k < ss.len() implies ss[k] is Service by {
            t.lemma_filter_pred(|m: GattModel| m is Service, k);
        }
        lemma_all_plans_end(t, ss, rv);
        assert(n == all.len());
        assert(row_fits(rows@[n - 1]@, all[n - 1]));
    }
    if n > 0 && rows[n - 1].handles.as_str().is_empty() && rows[n - 1].description.as_str().is_empty() {
        rows.pop();
        assert forall|k: int| 0 <= k < rows@.len() implies #[trigger] row_fits(rows@[k]@, all.drop_last()[k]) by {
            assert(row_fits(rows@[k]@, all[k]));
        }
    } else {
        assert(false);
    }
    Some(rows)
}

/// The plans of at least one service end with a separator.
proof fn lemma_all_plans_end(t: Seq<GattModel>, ss: Seq<GattModel>, rv: Seq<(u16, Seq<u8>)>)
    requires
        ss.len() > 0,
        forall|i: int| 0 <= i < ss.len() ==> ss[i] is Service,
    ensures
        all_plans(t, ss, rv).len() > 0,
        all_plans(t, ss, rv).last() == RowPlan::Separator,
{
    assert(ss.last() is Service);
}

/// Value handles of the characteristics of `cs` whose value the table shows.
pub open spec fn char_read_targets(cs: Seq<GattModel>) -> Seq<u16>
    decreases cs.len(),
{
    if cs.len() == 0 {
        seq![]
    } else {
        char_read_targets(cs.drop_last()) + match cs.last() {
            GattModel::Characteristic { value_handle, properties, .. } => if wants_read(properties) {
                seq![value_handle]
            } else {
                seq![]
            },
            _ => seq![],
        }
    }
}

/// Value handles to read for the services `ss`, service by service.
pub open spec fn read_targets(t: Seq<GattModel>, ss: Seq<GattModel>) -> Seq<u16>
    decreases ss.len(),
{
    if ss.len() == 0 {
        seq![]
    } else {
        read_targets(t, ss.drop_last()) + match ss.last() {
            GattModel::Service { start_handle, end_handle, .. } => char_read_targets(
                chars_in_range_of(t, start_handle, end_handle, None),
            ),
            _ => seq![],
        }
    }
}

/// The value handles whose values the enumerate table shows, in the order
/// the table visits them.
pub fn enumerate_read_targets(table: &HandleTable) -> (r: Vec<u16>)
    requires
        table.wf(),
        enumerate_ok(table@),
    ensures
        r@ == read_targets(table@, services_of(table@)),
{
    let ghost t = table@;
    let services = table.services();
    let ghost ss = models(services@);
    let mut r: Vec<u16> = Vec::new();
    let mut i: usize = 0;
    while i < services.len()
        invariant
            i <= services.len(),
            table.wf(),
            t == table@,
            ss == models(services@),
            ss == services_of(t),
            enumerate_ok(t),
            r@ == read_targets(t, ss.take(i as int)),
        decreases services.len() - i,
    {
        proof {
            let ti = ss.take(i + 1);
            assert(ti.drop_last() =~= ss.take(i as int));
            assert(ti.last() == services@[i as int]@);
            assert(ss[i as int] == services@[i as int]@);
            assert(service_ok(t, ss[i as int]));
        }
        match &services[i] {
            GattObject::Service { start_handle, end_handle, .. } => {
                let chars = table.characteristics_in_range(*start_handle, *end_handle, None);
                let ghost cs = models(chars@);
                let ghost base = r@;
                let mut j: usize = 0;
                while j < chars.len()
                    invariant
                        j <= chars.len(),
                        cs == models(chars@),
                        r@ == base + char_read_targets(cs.take(j as int)),
                    decreases chars.len() - j,
                {
                    proof {
                        let tj = cs.take(j + 1);
                        assert(tj.drop_last() =~= cs.take(j as int));
                        assert(tj.last() == chars@[j as int]@);
                    }
                    match &chars[j] {
                        GattObject::Characteristic { value_handle, properties, .. } => {
                            if (properties.0 & READ) != 0 {
                                r.push(*value_handle);
                            }
                        },
                        _ => {},
                    }
                    j += 1;
                    assert(r@ =~= base + char_read_targets(cs.take(j as int)));
                }
                assert(cs.take(chars.len() as int) =~= cs);
            },
            _ => {},
        }
        i += 1;
        assert(r@ =~= read_targets(t, ss.take(i as int)));
    }
    assert(ss.take(services.len() as int) =~= ss);
    r
}



// ───────────────────────────── device information ─────────────────────────────

/// What the device reports about itself, each property as read (`None`
/// where it is absent or could not be read).
pub struct DeviceProps {
    pub address: [u8; 6],
    pub addr_type: AddrType,
    pub name: Option<String>,
    pub alias: Option<String>,
    pub rssi: Option<i16>,
    pub tx_power: Option<i16>,
    pub connected: Option<bool>,
    pub paired: Option<bool>,
    pub trusted: Option<bool>,
    pub appearance: Option<u16>,
    pub adapter_name: String,
    /// Manufacturer data by company identifier, in the order received.
    pub manufacturer_data: Vec<(u16, Vec<u8>)>,
    /// Advertised service UUIDs, in the order received.
    pub uuids: Option<Vec<u128>>,
}

/// A key and its value.
pub open spec fn kv(k: Seq<char>, v: Seq<char>) -> (Seq<char>, Seq<char>) {
    (k, v)
}

/// `Yes` or `No`.
pub open spec fn yes_no(b: bool) -> Seq<char> {
    if b {
        "Yes"@
    } else {
        "No"@
    }
}

/// An optional entry.
pub open spec fn opt_entry(present: bool, k: Seq<char>, v: Seq<char>) -> Seq<(Seq<char>, Seq<char>)> {
    if present {
        seq![(k, v)]
    } else {
        seq![]
    }
}

/// The entries of the manufacturer data.
pub open spec fn mfr_entries(m: Seq<(u16, Seq<u8>)>) -> Seq<(Seq<char>, Seq<char>)>
    decreases m.len(),
{
    if m.len() == 0 {
        seq![]
    } else {
        mfr_entries(m.drop_last()) + seq![
            ("Manufacturer (0x"@ + hex4(m.last().0) + ")"@, trim_end(hex_bytes_text(m.last().1))),
        ]
    }
}

/// The advertised UUIDs, hyphenated and lowercase.
pub open spec fn uuid_texts(us: Seq<u128>) -> Seq<Seq<char>> {
    us.map_values(|u: u128| uuid_text(u as nat))
}

/// Name, alias (where it differs from the address), RSSI and TX power.
pub open spec fn device_radio(p: DeviceProps, addr: Seq<char>) -> Seq<(Seq<char>, Seq<char>)> {
    opt_entry(p.name is Some, "Name"@, p.name->0@) + opt_entry(
        p.alias is Some && p.alias->0@ != addr,
        "Alias"@,
        p.alias->0@,
    ) + opt_entry(p.rssi is Some, "RSSI"@, int_str(p.rssi->0 as int) + " dBm"@) + opt_entry(
        p.tx_power is Some,
        "TX Power"@,
        int_str(p.tx_power->0 as int) + " dBm"@,
    )
}

/// Connection, pairing, trust and appearance.
pub open spec fn device_state(p: DeviceProps) -> Seq<(Seq<char>, Seq<char>)> {
    opt_entry(p.connected is Some, "Connected"@, yes_no(p.connected->0)) + opt_entry(
        p.paired is Some,
        "Paired"@,
        yes_no(p.paired->0),
    ) + opt_entry(p.trusted is Some, "Trusted"@, yes_no(p.trusted->0)) + opt_entry(
        p.appearance is Some,
        "Appearance"@,
        "0x"@ + hex4(p.appearance->0),
    )
}

/// The service UUIDs entry, where there are any.
pub open spec fn device_uuids(p: DeviceProps) -> Seq<(Seq<char>, Seq<char>)> {
    opt_entry(
        p.uuids is Some && p.uuids->0@.len() > 0,
        "Service UUIDs"@,
        join(uuid_texts(p.uuids->0@), ", "@),
    )
}

/// The device information table's entries, in order: address, address
/// type, name, alias (where it differs from the address), RSSI, TX power,
/// connection, pairing and trust, appearance, adapter, manufacturer data
/// and service UUIDs.
pub open spec fn device_info(p: DeviceProps) -> Seq<(Seq<char>, Seq<char>)> {
    let addr = address_text(p.address@);
    seq![
        kv("Address"@, addr),
        kv("Address Type"@, match p.addr_type {
            AddrType::LePublic => "Public"@,
            AddrType::LeRandom => "Random"@,
            _ => "Unknown"@,
        }),
    ] + device_radio(p, addr) + device_state(p) + seq![kv("Adapter"@, p.adapter_name@)]
        + mfr_entries(p.manufacturer_data@.map_values(|e: (u16, Vec<u8>)| (e.0, e.1@)))
        + device_uuids(p)
}

/// Views of key-value pairs.
pub open spec fn pair_views(v: Seq<(String, String)>) -> Seq<(Seq<char>, Seq<char>)> {
    v.map_values(|e: (String, String)| (e.0@, e.1@))
}

fn push_pair(out: &mut Vec<(String, String)>, k: String, v: String)
    ensures
        pair_views(final(out)@) == pair_views(old(out)@).push((k@, v@)),
{
    let ghost before = pair_views(out@);
    let ghost e = (k@, v@);
    out.push((k, v));
    assert(pair_views(out@) =~= before.push(e));
}

fn yes_no_string(b: bool) -> (r: String)
    ensures
        r@ == yes_no(b),
{
    if b {
        string_from("Yes")
    } else {
        string_from("No")
    }
}

fn dbm_string(x: i16) -> (r: String)
    ensures
        r@ == int_str(x as int) + " dBm"@,
{
    let mut s = String::new();
    push_int(&mut s, x as i64);
    push_str(&mut s, " dBm");
    s
}

fn push_device_radio(info: &mut Vec<(String, String)>, p: &DeviceProps, addr: &String)
    ensures
        pair_views(final(info)@) == pair_views(old(info)@) + device_radio(*p, addr@),
{
    let ghost start = pair_views(info@);
    match &p.name {
        Some(n) => push_pair(info, string_from("Name"), string_from(n.as_str())),
        None => {},
    }
    let ghost a1 = pair_views(info@);
    match &p.alias {
        Some(a) => {
            if !crate::text::str_eq(a.as_str(), addr.as_str()) {
                push_pair(info, string_from("Alias"), string_from(a.as_str()));
            }
        },
        None => {},
    }
    let ghost a2 = pair_views(info@);
    match p.rssi {
        Some(x) => push_pair(info, string_from("RSSI"), dbm_string(x)),
        None => {},
    }
    let ghost a3 = pair_views(info@);
    match p.tx_power {
        Some(x) => push_pair(info, string_from("TX Power"), dbm_string(x)),
        None => {},
    }
    assert(a1 =~= start + opt_entry(p.name is Some, "Name"@, p.name->0@));
    assert(a2 =~= a1 + opt_entry(p.alias is Some && p.alias->0@ != addr@, "Alias"@, p.alias->0@));
    assert(a3 =~= a2 + opt_entry(p.rssi is Some, "RSSI"@, int_str(p.rssi->0 as int) + " dBm"@));
    assert(pair_views(info@) =~= start + device_radio(*p, addr@));
}

fn push_device_state(info: &mut Vec<(String, String)>, p: &DeviceProps)
    ensures
        pair_views(final(info)@) == pair_views(old(info)@) + device_state(*p),
{
    let ghost start = pair_views(info@);
    match p.connected {
        Some(b) => push_pair(info, string_from("Connected"), yes_no_string(b)),
        None => {},
    }
    let ghost a1 = pair_views(info@);
    match p.paired {
        Some(b) => push_pair(info, string_from("Paired"), yes_no_string(b)),
        None => {},
    }
    let ghost a2 = pair_views(info@);
    match p.trusted {
        Some(b) => push_pair(info, string_from("Trusted"), yes_no_string(b)),
        None => {},
    }
    let ghost a3 = pair_views(info@);
    match p.appearance {
        Some(a) => {
            let mut v = String::new();
            push_str(&mut v, "0x");
            push_hex4(&mut v, a);
            push_pair(info, string_from("Appearance"), v);
        },
        None => {},
    }
    assert(a1 =~= start + opt_entry(p.connected is Some, "Connected"@, yes_no(p.connected->0)));
    assert(a2 =~= a1 + opt_entry(p.paired is Some, "Paired"@, yes_no(p.paired->0)));
    assert(a3 =~= a2 + opt_entry(p.trusted is Some, "Trusted"@, yes_no(p.trusted->0)));
    assert(pair_views(info@) =~= start + device_state(*p));
}

fn push_mfr(info: &mut Vec<(String, String)>, m: &Vec<(u16, Vec<u8>)>)
    ensures
        pair_views(final(info)@) == pair_views(old(info)@) + mfr_entries(
            m@.map_values(|e: (u16, Vec<u8>)| (e.0, e.1@)),
        ),
{
    let ghost start = pair_views(info@);
    let ghost mv = m@.map_values(|e: (u16, Vec<u8>)| (e.0, e.1@));
    let mut i: usize = 0;
    while i < m.len()
        invariant
            i <= m.len(),
            mv == m@.map_values(|e: (u16, Vec<u8>)| (e.0, e.1@)),
            pair_views(info@) == start + mfr_entries(mv.take(i as int)),
        decreases m.len() - i,
    {
        let cid = m[i].0;
        let data = &m[i].1;
        let mut k = String::new();
        push_str(&mut k, "Manufacturer (0x");
        push_hex4(&mut k, cid);
        push_str(&mut k, ")");
        let hex = format_hex_bytes(data.as_slice());
        let v = crate::text::string_of(&trim_end_string(&hex));
        proof {
            let t = mv.take(i + 1);
            assert(t.drop_last() =~= mv.take(i as int));
            assert(t.last() == (cid, data@));
        }
        push_pair(info, k, v);
        i += 1;
        assert(pair_views(info@) =~= start + mfr_entries(mv.take(i as int)));
    }
    assert(mv.take(m.len() as int) =~= mv);
}

fn push_uuids(info: &mut Vec<(String, String)>, p: &DeviceProps)
    ensures
        pair_views(final(info)@) == pair_views(old(info)@) + device_uuids(*p),
{
    let ghost start = pair_views(info@);
    match &p.uuids {
        Some(us) => {
            if us.len() > 0 {
                let mut parts: Vec<Vec<char>> = Vec::new();
                let mut j: usize = 0;
                while j < us.len()
                    invariant
                        j <= us.len(),
                        parts@.map_values(|v: Vec<char>| v@) == uuid_texts(us@).take(j as int),
                    decreases us.len() - j,
                {
                    let u = format_uuid128(us[j]);
                    let ghost before = parts@.map_values(|v: Vec<char>| v@);
                    parts.push(chars_of(u.as_str()));
                    assert(parts@.map_values(|v: Vec<char>| v@) =~= before.push(u@));
                    j += 1;
                    assert(uuid_texts(us@).take(j as int) =~= uuid_texts(us@).take(j - 1).push(
                        uuid_text(us@[j - 1] as nat),
                    ));
                }
                assert(uuid_texts(us@).take(us.len() as int) =~= uuid_texts(us@));
                let mut v = String::new();
                push_join(&mut v, &parts, ", ");
                push_pair(info, string_from("Service UUIDs"), v);
            } else {
                assert(pair_views(info@) =~= start + device_uuids(*p));
            }
        },
        None => {
            assert(pair_views(info@) =~= start + device_uuids(*p));
        },
    }
}

/// The entries of the device information table.
pub fn device_info_rows(p: &DeviceProps) -> (r: Vec<(String, String)>)
    ensures
        pair_views(r@) == device_info(*p),
{
    let mut info: Vec<(String, String)> = Vec::new();
    let addr = address_to_string(p.address);
    push_pair(&mut info, string_from("Address"), string_from(addr.as_str()));
    let t = match p.addr_type {
        AddrType::LePublic => "Public",
        AddrType::LeRandom => "Random",
        _ => "Unknown",
    };
    push_pair(&mut info, string_from("Address Type"), string_from(t));
    push_device_radio(&mut info, p, &addr);
    push_device_state(&mut info, p);
    push_pair(&mut info, string_from("Adapter"), string_from(p.adapter_name.as_str()));
    push_mfr(&mut info, &p.manufacturer_data);
    push_uuids(&mut info, p);
    assert(pair_views(info@) =~= device_info(*p));
    info
}

} // verus!
