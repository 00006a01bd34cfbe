//! What unit files say: the values of the keys in each section.

use crate::chars::lowercase;
use crate::generators::quadlet::{
    attachment, bind_volume_text, container_dependency, container_text, environment_line,
    has_type_option, remain_line, volume_option, volume_text,
};
use crate::lines::{entry, flat, lines_of, opt_entry, wrapped};
use crate::models::quadlet::{QuadletContainer, QuadletVolume};
use crate::number::flag;
use crate::occurs::{lemma_regrouped, lemma_wrapped_sum};
use crate::read_back::{is_line, lemma_written_lines};
use crate::text::{given, opt_view, present, views};
use vstd::prelude::*;
use vstd::string::*;

verus! {

// ---------------------------------------------------------------------------
// Reading a unit file
// ---------------------------------------------------------------------------

/// A key as a line starts with it: it ends in its only equals sign, and is no heading.
pub open spec fn is_key(key: Seq<char>) -> bool {
    &&& key.len() > 1
    &&& key.last() == '='
    &&& forall|i: int| 0 <= i < key.len() - 1 ==> #[trigger] key[i] != '=' && key[i] != '\n'
    &&& key[0] != '['
}

/// The section that holds what follows the given lines: the one of the last heading, or the
/// one before them.
pub open spec fn section_after(start: Seq<char>, lines: Seq<Seq<char>>) -> Seq<char>
    decreases lines.len(),
{
    if lines.len() == 0 {
        start
    } else if lines.last().len() > 0 && lines.last()[0] == '[' {
        lines.last()
    } else {
        section_after(start, lines.drop_last())
    }
}

/// The values that the lines of a section give a key, in their order.
pub open spec fn values_from(
    start: Seq<char>,
    lines: Seq<Seq<char>>,
    section: Seq<char>,
    key: Seq<char>,
) -> Seq<Seq<char>>
    decreases lines.len(),
{
    if lines.len() == 0 {
        Seq::empty()
    } else {
        values_from(start, lines.drop_last(), section, key) + if section_after(
            start,
            lines.drop_last(),
        ) == section && key.is_prefix_of(lines.last()) {
            seq![lines.last().skip(key.len() as int)]
        } else {
            Seq::empty()
        }
    }
}

/// The values that a unit file gives a key in a section, in their order.
pub open spec fn unit_values(text: Seq<char>, section: Seq<char>, key: Seq<char>) -> Seq<
    Seq<char>,
> {
    values_from(Seq::empty(), lines_of(text), section, key)
}

// ---------------------------------------------------------------------------
// Entries and sections
// ---------------------------------------------------------------------------

/// A section: its heading, and its keys with their values.
struct UnitSection {
    heading: Seq<char>,
    entries: Seq<(Seq<char>, Seq<char>)>,
}

spec fn entry_lines(e: Seq<(Seq<char>, Seq<char>)>) -> Seq<Seq<char>> {
    Seq::new(e.len(), |i: int| e[i].0 + e[i].1)
}

spec fn section_lines(s: UnitSection) -> Seq<Seq<char>> {
    seq![s.heading] + entry_lines(s.entries)
}

spec fn unit_lines(v: Seq<UnitSection>) -> Seq<Seq<char>>
    decreases v.len(),
{
    if v.len() == 0 {
        Seq::empty()
    } else if v.len() == 1 {
        section_lines(v[0])
    } else {
        unit_lines(v.drop_last()) + seq![""@] + section_lines(v.last())
    }
}

spec fn text_of(lines: Seq<Seq<char>>) -> Seq<char> {
    wrapped(lines, ""@, "\n"@)
}

/// The values of a key among entries.
spec fn picked(e: Seq<(Seq<char>, Seq<char>)>, key: Seq<char>) -> Seq<Seq<char>>
    decreases e.len(),
{
    if e.len() == 0 {
        Seq::empty()
    } else {
        picked(e.drop_last(), key) + if e.last().0 == key {
            seq![e.last().1]
        } else {
            Seq::empty()
        }
    }
}

/// Whether the entries can stand in a file: their keys are keys, and their values lines.
spec fn are_entries(e: Seq<(Seq<char>, Seq<char>)>) -> bool {
    forall|i: int| 0 <= i < e.len() ==> is_key((#[trigger] e[i]).0) && is_line(e[i].1)
}

spec fn is_section(s: UnitSection) -> bool {
    s.heading.len() > 0 && s.heading[0] == '[' && is_line(s.heading) && are_entries(s.entries)
}

proof fn lemma_section_after_sum(start: Seq<char>, a: Seq<Seq<char>>, b: Seq<Seq<char>>)
    ensures
        section_after(start, a + b) == section_after(section_after(start, a), b),
    decreases b.len(),
{
    if b.len() == 0 {
        assert(a + b =~= a);
    } else {
        assert((a + b).drop_last() =~= a + b.drop_last());
        assert((a + b).last() == b.last());
        lemma_section_after_sum(start, a, b.drop_last());
    }
}

proof fn lemma_values_sum(
    start: Seq<char>,
    a: Seq<Seq<char>>,
    b: Seq<Seq<char>>,
    section: Seq<char>,
    key: Seq<char>,
)
    ensures
        values_from(start, a + b, section, key) == values_from(start, a, section, key)
            + values_from(section_after(start, a), b, section, key),
    decreases b.len(),
{
    if b.len() == 0 {
        assert(a + b =~= a);
        assert(values_from(start, a, section, key) + Seq::<Seq<char>>::empty() =~= values_from(
            start,
            a,
            section,
            key,
        ));
    } else {
        let front = b.drop_last();
        assert((a + b).drop_last() =~= a + front);
        assert((a + b).last() == b.last());
        lemma_values_sum(start, a, front, section, key);
        lemma_section_after_sum(start, a, front);
        let x = values_from(start, a, section, key);
        let y = values_from(section_after(start, a), front, section, key);
        let z = if section_after(start, a + front) == section && key.is_prefix_of(b.last()) {
            seq![b.last().skip(key.len() as int)]
        } else {
            Seq::empty()
        };
        assert(x + y + z =~= x + (y + z));
    }
}

/// A line that starts with a key starts with no other one.
proof fn lemma_key_of_line(key: Seq<char>, other: Seq<char>, value: Seq<char>)
    requires
        is_key(key),
        is_key(other),
    ensures
        key.is_prefix_of(other + value) <==> key == other,
{
    let line = other + value;
    if key == other {
        assert(line.subrange(0, key.len() as int) =~= key);
    } else if key.is_prefix_of(line) {
        let n = key.len() as int;
        let m = other.len() as int;
        assert(key[n - 1] == line[n - 1]);
        if n < m {
            assert(other[n - 1] == line[n - 1]);
        } else if n > m {
            assert(line[m - 1] == other[m - 1]);
            assert(key[m - 1] == line[m - 1]);
        } else {
            assert(key =~= other);
        }
    }
}

proof fn lemma_entries(
    start: Seq<char>,
    e: Seq<(Seq<char>, Seq<char>)>,
    section: Seq<char>,
    key: Seq<char>,
)
    requires
        are_entries(e),
        is_key(key),
    ensures
        section_after(start, entry_lines(e)) == start,
        values_from(start, entry_lines(e), section, key) == if start == section {
            picked(e, key)
        } else {
            Seq::empty()
        },
    decreases e.len(),
{
    if e.len() > 0 {
        let front = e.drop_last();
        let last = e[e.len() - 1];
        assert(is_key(last.0));
        assert forall|i: int| 0 <= i < front.len() implies is_key((#[trigger] front[i]).0)
            && is_line(front[i].1) by {
            assert(front[i] == e[i]);
        }
        lemma_entries(start, front, section, key);
        assert(entry_lines(e).drop_last() =~= entry_lines(front));
        assert(entry_lines(e).last() == last.0 + last.1);
        lemma_key_of_line(key, last.0, last.1);
        assert((last.0 + last.1)[0] == last.0[0]);
        assert((last.0 + last.1).skip(last.0.len() as int) =~= last.1);
    }
}

/// The values of a key in a section.
spec fn section_values(section: Seq<char>, key: Seq<char>) -> spec_fn(UnitSection) -> Seq<
    Seq<char>,
> {
    |s: UnitSection|
        if s.heading == section {
            picked(s.entries, key)
        } else {
            Seq::empty()
        }
}

proof fn lemma_section(start: Seq<char>, s: UnitSection, section: Seq<char>, key: Seq<char>)
    requires
        is_section(s),
        is_key(key),
    ensures
        values_from(start, section_lines(s), section, key) == section_values(section, key)(s),
{
    let one = seq![s.heading];
    assert(one.drop_last() =~= Seq::<Seq<char>>::empty());
    assert(one.last() == s.heading);
    reveal_with_fuel(section_after, 2);
    reveal_with_fuel(values_from, 2);
    if key.is_prefix_of(s.heading) {
        assert(key[0] == s.heading[0]);
    }
    assert(values_from(start, one, section, key) =~= Seq::<Seq<char>>::empty());
    assert(section_after(start, one) == s.heading);
    lemma_values_sum(start, one, entry_lines(s.entries), section, key);
    lemma_entries(s.heading, s.entries, section, key);
    assert(Seq::<Seq<char>>::empty() + values_from(
        s.heading,
        entry_lines(s.entries),
        section,
        key,
    ) =~= section_values(section, key)(s));
}

/// What a unit of the given sections says.
proof fn lemma_unit_lines(v: Seq<UnitSection>, section: Seq<char>, key: Seq<char>)
    requires
        forall|i: int| 0 <= i < v.len() ==> is_section(#[trigger] v[i]),
        is_key(key),
    ensures
        values_from(Seq::empty(), unit_lines(v), section, key) == flat(
            v,
            section_values(section, key),
        ),
    decreases v.len(),
{
    let none = Seq::<char>::empty();
    if v.len() == 1 {
        assert(is_section(v[0]));
        lemma_section(none, v[0], section, key);
        assert(v.drop_last() =~= Seq::<UnitSection>::empty());
        reveal_with_fuel(flat, 2);
        assert(flat(v, section_values(section, key)) =~= section_values(section, key)(v[0]));
    } else if v.len() > 1 {
        let front = v.drop_last();
        assert forall|i: int| 0 <= i < front.len() implies is_section(#[trigger] front[i]) by {
            assert(front[i] == v[i]);
        }
        lemma_unit_lines(front, section, key);
        assert(is_section(v[v.len() - 1]));
        let a = unit_lines(front);
        let gap = seq![""@];
        lemma_values_sum(none, a, gap, section, key);
        lemma_values_sum(none, a + gap, section_lines(v.last()), section, key);
        lemma_section(section_after(none, a + gap), v.last(), section, key);
        reveal_strlit("");
        assert(gap.drop_last() =~= Seq::<Seq<char>>::empty());
        reveal_with_fuel(values_from, 2);
        let s0 = section_after(none, a);
        assert(values_from(s0, gap, section, key) =~= Seq::<Seq<char>>::empty());
        let x = values_from(none, a, section, key);
        assert(x + Seq::<Seq<char>>::empty() =~= x);
    }
}

proof fn lemma_unit_lines_are_lines(v: Seq<UnitSection>)
    requires
        forall|i: int| 0 <= i < v.len() ==> is_section(#[trigger] v[i]),
    ensures
        forall|k: int| 0 <= k < unit_lines(v).len() ==> is_line(#[trigger] unit_lines(v)[k]),
    decreases v.len(),
{
    if v.len() > 0 {
        let s = v[v.len() - 1];
        assert(is_section(s));
        let lines = section_lines(s);
        assert forall|k: int| 0 <= k < lines.len() implies is_line(#[trigger] lines[k]) by {
            if k > 0 {
                let e = s.entries[k - 1];
                assert(lines[k] == e.0 + e.1);
                assert(is_key(e.0) && is_line(e.1));
                lemma_key_is_line(e.0, e.1);
            }
        }
        if v.len() > 1 {
            reveal_strlit("");
            let front = v.drop_last();
            assert forall|i: int| 0 <= i < front.len() implies is_section(#[trigger] front[i]) by {
                assert(front[i] == v[i]);
            }
            lemma_unit_lines_are_lines(front);
            let a = unit_lines(front);
            let all = unit_lines(v);
            assert forall|k: int| 0 <= k < all.len() implies is_line(#[trigger] all[k]) by {
                if k < a.len() {
                    assert(all[k] == a[k]);
                } else if k > a.len() {
                    assert(all[k] == lines[k - a.len() - 1]);
                }
            }
        }
    }
}

/// A line that starts with a key is one where its value is.
proof fn lemma_key_is_line(key: Seq<char>, value: Seq<char>)
    requires
        is_key(key),
        is_line(value),
    ensures
        is_line(key + value),
{
    let line = key + value;
    assert forall|i: int| 0 <= i < line.len() implies #[trigger] line[i] != '\n' by {
        if i < key.len() {
            assert(line[i] == key[i]);
        } else {
            assert(line[i] == value[i - key.len()]);
        }
    }
    if value.len() > 0 {
        assert(line.last() == value.last());
    } else {
        assert(line.last() == key.last());
    }
}

/// What the file of a unit says.
proof fn lemma_unit(v: Seq<UnitSection>, section: Seq<char>, key: Seq<char>)
    requires
        forall|i: int| 0 <= i < v.len() ==> is_section(#[trigger] v[i]),
        is_key(key),
    ensures
        unit_values(text_of(unit_lines(v)), section, key) == flat(v, section_values(section, key)),
{
    lemma_unit_lines_are_lines(v);
    lemma_written_lines(unit_lines(v));
    lemma_unit_lines(v, section, key);
}

// ---------------------------------------------------------------------------
// Lists of values
// ---------------------------------------------------------------------------

/// A key with each of the given values.
spec fn listed(key: Seq<char>, values: Seq<Seq<char>>) -> Seq<(Seq<char>, Seq<char>)> {
    Seq::new(values.len(), |i: int| (key, values[i]))
}

/// The values of a key, where it is the one that is asked for.
spec fn asked(key: Seq<char>, values: Seq<Seq<char>>, wanted: Seq<char>) -> Seq<Seq<char>> {
    if key == wanted {
        values
    } else {
        Seq::empty()
    }
}

proof fn lemma_picked_sum(
    a: Seq<(Seq<char>, Seq<char>)>,
    b: Seq<(Seq<char>, Seq<char>)>,
    key: Seq<char>,
)
    ensures
        picked(a + b, key) == picked(a, key) + picked(b, key),
    decreases b.len(),
{
    if b.len() == 0 {
        assert(a + b =~= a);
        assert(picked(a, key) + picked(b, key) =~= picked(a, key));
    } else {
        assert((a + b).drop_last() =~= a + b.drop_last());
        assert((a + b).last() == b.last());
        lemma_picked_sum(a, b.drop_last(), key);
        assert(picked(a + b, key) =~= picked(a, key) + picked(b, key));
    }
}

proof fn lemma_picked_list(key: Seq<char>, values: Seq<Seq<char>>, wanted: Seq<char>)
    ensures
        picked(listed(key, values), wanted) == asked(key, values, wanted),
    decreases values.len(),
{
    let e = listed(key, values);
    if values.len() > 0 {
        assert(e.drop_last() =~= listed(key, values.drop_last()));
        lemma_picked_list(key, values.drop_last(), wanted);
        assert(values.drop_last() + seq![values.last()] =~= values);
        assert(picked(e, wanted) =~= asked(key, values, wanted));
    } else {
        assert(values =~= Seq::<Seq<char>>::empty());
    }
}

/// The text of entries.
spec fn entries_text(e: Seq<(Seq<char>, Seq<char>)>) -> Seq<char> {
    text_of(entry_lines(e))
}

proof fn lemma_entries_text_sum(
    a: Seq<(Seq<char>, Seq<char>)>,
    b: Seq<(Seq<char>, Seq<char>)>,
)
    ensures
        entries_text(a + b) == entries_text(a) + entries_text(b),
{
    assert(entry_lines(a + b) =~= entry_lines(a) + entry_lines(b));
    lemma_wrapped_sum(entry_lines(a), entry_lines(b), ""@, "\n"@);
}

proof fn lemma_list_text(key: Seq<char>, values: Seq<Seq<char>>)
    ensures
        entries_text(listed(key, values)) == wrapped(values, key, "\n"@),
    decreases values.len(),
{
    reveal_strlit("");
    let e = listed(key, values);
    if values.len() > 0 {
        assert(entry_lines(e).drop_last() =~= entry_lines(listed(key, values.drop_last())));
        assert(entry_lines(e).last() == key + values.last());
        lemma_list_text(key, values.drop_last());
        assert(entries_text(e) =~= wrapped(values, key, "\n"@));
    }
}

proof fn lemma_one_text(key: Seq<char>, value: Seq<char>)
    ensures
        entries_text(listed(key, seq![value])) == key + value + "\n"@,
{
    lemma_list_text(key, seq![value]);
    assert(seq![value].drop_last() =~= Seq::<Seq<char>>::empty());
    reveal_with_fuel(wrapped, 2);
    assert(wrapped(seq![value], key, "\n"@) =~= key + value + "\n"@);
}

/// The text as a list of one, or of none where there is no text or an empty one.
pub open spec fn if_given(o: Option<String>) -> Seq<Seq<char>> {
    if o is Some && o->0@.len() > 0 {
        seq![o->0@]
    } else {
        Seq::empty()
    }
}

proof fn lemma_opt_text(o: Option<String>, key: Seq<char>)
    ensures
        entries_text(listed(key, if_given(o))) == opt_entry(o, key, "\n"@),
{
    if o is Some && o->0@.len() > 0 {
        lemma_one_text(key, o->0@);
    } else {
        lemma_list_text(key, Seq::empty());
    }
}

proof fn lemma_listed_are_entries(key: Seq<char>, values: Seq<Seq<char>>)
    requires
        is_key(key),
        forall|i: int| 0 <= i < values.len() ==> is_line(#[trigger] values[i]),
    ensures
        are_entries(listed(key, values)),
{
    assert forall|i: int| 0 <= i < listed(key, values).len() implies is_key(
        (#[trigger] listed(key, values)[i]).0,
    ) && is_line(listed(key, values)[i].1) by {
        assert(is_line(values[i]));
    }
}

proof fn lemma_entries_sum(a: Seq<(Seq<char>, Seq<char>)>, b: Seq<(Seq<char>, Seq<char>)>)
    requires
        are_entries(a),
        are_entries(b),
    ensures
        are_entries(a + b),
{
    assert forall|i: int| 0 <= i < (a + b).len() implies is_key((#[trigger] (a + b)[i]).0)
        && is_line((a + b)[i].1) by {
        if i < a.len() {
            assert((a + b)[i] == a[i]);
        } else {
            assert((a + b)[i] == b[i - a.len()]);
        }
    }
}

// ---------------------------------------------------------------------------
// Containers
// ---------------------------------------------------------------------------

/// The units that a container waits for: its pod's, or the service of that name.
pub open spec fn awaited_units(c: QuadletContainer) -> Seq<Seq<char>> {
    Seq::new(
        c.depends_on@.len(),
        |i: int|
            if c.pod is Some && c.pod->0@ == c.depends_on@[i]@ {
                c.depends_on@[i]@ + ".pod"@
            } else {
                c.depends_on@[i]@ + ".service"@
            },
    )
}

/// The settings of a container, as their names and values with an equals sign between.
pub open spec fn settings(c: QuadletContainer) -> Seq<Seq<char>> {
    Seq::new(
        c.environment@.len(),
        |i: int| c.environment@[i].0@ + "="@ + c.environment@[i].1@,
    )
}

/// The text with the ending as a list of one, or of none where the text is missing or empty.
pub open spec fn if_given_with(o: Option<String>, ending: Seq<char>) -> Seq<Seq<char>> {
    if o is Some && o->0@.len() > 0 {
        seq![o->0@ + ending]
    } else {
        Seq::empty()
    }
}

/// The values of a container that belongs to no pod: the pod has them otherwise.
pub open spec fn without_pod(c: QuadletContainer, values: Seq<Seq<char>>) -> Seq<Seq<char>> {
    if c.pod is None {
        values
    } else {
        Seq::empty()
    }
}

/// Whether each of the texts is one line.
pub open spec fn are_lines(v: Seq<Seq<char>>) -> bool {
    forall|i: int| 0 <= i < v.len() ==> is_line(#[trigger] v[i])
}

/// Whether the texts of a container are lines.
pub open spec fn has_line_texts(c: QuadletContainer) -> bool {
    &&& is_line(c.name@)
    &&& is_line(c.image@)
    &&& are_lines(if_given(c.description))
    &&& are_lines(views(c.depends_on@))
    &&& are_lines(if_given(c.pod))
    &&& are_lines(if_given(c.network))
    &&& are_lines(if_given(c.ip))
    &&& are_lines(views(c.publish_ports@))
    &&& are_lines(settings(c))
    &&& are_lines(views(c.volumes@))
    &&& are_lines(views(c.tmpfs@))
    &&& are_lines(if_given(c.entrypoint))
    &&& are_lines(if_given(c.exec_command))
    &&& are_lines(if_given(c.user))
    &&& are_lines(if_given(c.auto_update))
    &&& are_lines(views(c.labels@))
    &&& are_lines(views(c.add_capabilities@))
    &&& are_lines(views(c.extra_args@))
    &&& are_lines(if_given(c.service_type))
    &&& are_lines(if_given(c.timeout_stop_sec))
    &&& are_lines(if_given(c.wanted_by))
}

/// An optional flag as a list of one, or of none.
pub open spec fn flag_given(o: Option<bool>) -> Seq<Seq<char>> {
    match o {
        Some(b) => seq![
            if b {
                "true"@
            } else {
                "false"@
            },
        ],
        None => Seq::empty(),
    }
}

spec fn dependency_entries(units: Seq<Seq<char>>) -> Seq<(Seq<char>, Seq<char>)>
    decreases units.len(),
{
    if units.len() == 0 {
        Seq::empty()
    } else {
        dependency_entries(units.drop_last()) + seq![
            ("After="@, units.last()),
            ("Requires="@, units.last()),
        ]
    }
}

spec fn unit_entries(c: QuadletContainer) -> Seq<(Seq<char>, Seq<char>)> {
    listed("Description="@, if_given(c.description)) + dependency_entries(awaited_units(c))
}

spec fn attachment_entries(c: QuadletContainer) -> Seq<(Seq<char>, Seq<char>)> {
    listed("Pod="@, if_given_with(c.pod, ".pod"@)) + listed(
        "Network="@,
        without_pod(c, if_given_with(c.network, ".network"@)),
    ) + listed("IP="@, without_pod(c, if_given(c.ip))) + listed(
        "PublishPort="@,
        without_pod(c, views(c.publish_ports@)),
    )
}

spec fn container_entries(c: QuadletContainer) -> Seq<(Seq<char>, Seq<char>)> {
    listed("ContainerName="@, seq![c.name@]) + listed("Image="@, seq![c.image@])
        + attachment_entries(c) + listed("Environment="@, settings(c)) + listed(
        "Volume="@,
        views(c.volumes@),
    ) + listed("Tmpfs="@, views(c.tmpfs@)) + listed("Entrypoint="@, if_given(c.entrypoint))
        + listed("Exec="@, if_given(c.exec_command)) + listed("User="@, if_given(c.user)) + listed(
        "AutoUpdate="@,
        if_given(c.auto_update),
    ) + listed("Label="@, views(c.labels@)) + listed(
        "AddCapability="@,
        views(c.add_capabilities@),
    ) + listed("PodmanArgs="@, views(c.extra_args@))
}

spec fn service_entries(c: QuadletContainer) -> Seq<(Seq<char>, Seq<char>)> {
    listed("Restart="@, seq!["no"@]) + listed("TimeoutStartSec="@, seq!["0"@]) + listed(
        "Type="@,
        if_given(c.service_type),
    ) + listed("RemainAfterExit="@, flag_given(c.remain_after_exit)) + listed(
        "TimeoutStopSec="@,
        if_given(c.timeout_stop_sec),
    )
}

/// The sections before that of the container itself.
spec fn first_sections(c: QuadletContainer) -> Seq<UnitSection> {
    if if_given(c.description).len() > 0 || c.depends_on@.len() > 0 {
        seq![UnitSection { heading: "[Unit]"@, entries: unit_entries(c) }]
    } else {
        Seq::empty()
    }
}

spec fn main_sections(c: QuadletContainer) -> Seq<UnitSection> {
    first_sections(c).push(
        UnitSection { heading: "[Container]"@, entries: container_entries(c) },
    ).push(UnitSection { heading: "[Service]"@, entries: service_entries(c) })
}

spec fn container_sections(c: QuadletContainer) -> Seq<UnitSection> {
    if if_given(c.wanted_by).len() > 0 {
        main_sections(c).push(
            UnitSection {
                heading: "[Install]"@,
                entries: listed("WantedBy="@, if_given(c.wanted_by)),
            },
        )
    } else {
        main_sections(c)
    }
}

/// The keys of a container unit are keys.
proof fn lemma_keys()
    ensures
        is_key("ContainerName="@),
        is_key("Image="@),
        is_key("Pod="@),
        is_key("Network="@),
        is_key("IP="@),
        is_key("PublishPort="@),
        is_key("Environment="@),
        is_key("Volume="@),
        is_key("Tmpfs="@),
        is_key("Entrypoint="@),
        is_key("Exec="@),
        is_key("User="@),
        is_key("AutoUpdate="@),
        is_key("Label="@),
        is_key("AddCapability="@),
        is_key("PodmanArgs="@),
        is_key("Description="@),
        is_key("After="@),
        is_key("Requires="@),
        is_key("Restart="@),
        is_key("TimeoutStartSec="@),
        is_key("Type="@),
        is_key("RemainAfterExit="@),
        is_key("TimeoutStopSec="@),
        is_key("WantedBy="@),
{
    reveal_strlit("ContainerName=");
    reveal_strlit("Image=");
    reveal_strlit("Pod=");
    reveal_strlit("Network=");
    reveal_strlit("IP=");
    reveal_strlit("PublishPort=");
    reveal_strlit("Environment=");
    reveal_strlit("Volume=");
    reveal_strlit("Tmpfs=");
    reveal_strlit("Entrypoint=");
    reveal_strlit("Exec=");
    reveal_strlit("User=");
    reveal_strlit("AutoUpdate=");
    reveal_strlit("Label=");
    reveal_strlit("AddCapability=");
    reveal_strlit("PodmanArgs=");
    reveal_strlit("Description=");
    reveal_strlit("After=");
    reveal_strlit("Requires=");
    reveal_strlit("Restart=");
    reveal_strlit("TimeoutStartSec=");
    reveal_strlit("Type=");
    reveal_strlit("RemainAfterExit=");
    reveal_strlit("TimeoutStopSec=");
    reveal_strlit("WantedBy=");
}

/// The keys of a section differ in their lengths or first characters.
proof fn lemma_key_shapes()
    ensures
        "ContainerName="@.len() == 14 && "ContainerName="@[0] == 'C',
        "Image="@.len() == 6 && "Image="@[0] == 'I',
        "Pod="@.len() == 4 && "Pod="@[0] == 'P',
        "Network="@.len() == 8 && "Network="@[0] == 'N',
        "IP="@.len() == 3 && "IP="@[0] == 'I',
        "PublishPort="@.len() == 12 && "PublishPort="@[0] == 'P',
        "Environment="@.len() == 12 && "Environment="@[0] == 'E',
        "Volume="@.len() == 7 && "Volume="@[0] == 'V',
        "Tmpfs="@.len() == 6 && "Tmpfs="@[0] == 'T',
        "Entrypoint="@.len() == 11 && "Entrypoint="@[0] == 'E',
        "Exec="@.len() == 5 && "Exec="@[0] == 'E',
        "User="@.len() == 5 && "User="@[0] == 'U',
        "AutoUpdate="@.len() == 11 && "AutoUpdate="@[0] == 'A',
        "Label="@.len() == 6 && "Label="@[0] == 'L',
        "AddCapability="@.len() == 14 && "AddCapability="@[0] == 'A',
        "PodmanArgs="@.len() == 11 && "PodmanArgs="@[0] == 'P',
        "Description="@.len() == 12 && "Description="@[0] == 'D',
        "After="@.len() == 6 && "After="@[0] == 'A',
        "Requires="@.len() == 9 && "Requires="@[0] == 'R',
        "Restart="@.len() == 8 && "Restart="@[0] == 'R',
        "TimeoutStartSec="@.len() == 16 && "TimeoutStartSec="@[0] == 'T',
        "Type="@.len() == 5 && "Type="@[0] == 'T',
        "RemainAfterExit="@.len() == 16 && "RemainAfterExit="@[0] == 'R',
        "TimeoutStopSec="@.len() == 15 && "TimeoutStopSec="@[0] == 'T',
        "WantedBy="@.len() == 9 && "WantedBy="@[0] == 'W',
{
    reveal_strlit("ContainerName=");
    reveal_strlit("Image=");
    reveal_strlit("Pod=");
    reveal_strlit("Network=");
    reveal_strlit("IP=");
    reveal_strlit("PublishPort=");
    reveal_strlit("Environment=");
    reveal_strlit("Volume=");
    reveal_strlit("Tmpfs=");
    reveal_strlit("Entrypoint=");
    reveal_strlit("Exec=");
    reveal_strlit("User=");
    reveal_strlit("AutoUpdate=");
    reveal_strlit("Label=");
    reveal_strlit("AddCapability=");
    reveal_strlit("PodmanArgs=");
    reveal_strlit("Description=");
    reveal_strlit("After=");
    reveal_strlit("Requires=");
    reveal_strlit("Restart=");
    reveal_strlit("TimeoutStartSec=");
    reveal_strlit("Type=");
    reveal_strlit("RemainAfterExit=");
    reveal_strlit("TimeoutStopSec=");
    reveal_strlit("WantedBy=");
}

/// The headings are different lines.
proof fn lemma_headings()
    ensures
        is_line("[Container]"@) && "[Container]"@.len() == 11 && "[Container]"@[0] == '[' && "[Container]"@[1] == 'C',
        is_line("[Unit]"@) && "[Unit]"@.len() == 6 && "[Unit]"@[0] == '[' && "[Unit]"@[1] == 'U',
        is_line("[Service]"@) && "[Service]"@.len() == 9 && "[Service]"@[0] == '[' && "[Service]"@[1] == 'S',
        is_line("[Install]"@) && "[Install]"@.len() == 9 && "[Install]"@[0] == '[' && "[Install]"@[1] == 'I',
{
    reveal_strlit("[Container]");
    reveal_strlit("[Unit]");
    reveal_strlit("[Service]");
    reveal_strlit("[Install]");
}

/// What the keys of a section give, each with its values.
spec fn asked_of_unit(c: QuadletContainer, key: Seq<char>) -> Seq<Seq<char>> {
    asked("Description="@, if_given(c.description), key) + asked("After="@, awaited_units(c), key) + asked("Requires="@, awaited_units(c), key)
}

spec fn asked_of_container(c: QuadletContainer, key: Seq<char>) -> Seq<Seq<char>> {
    asked("ContainerName="@, seq![c.name@], key) + asked("Image="@, seq![c.image@], key) + (asked("Pod="@, if_given_with(c.pod, ".pod"@), key) + asked("Network="@, without_pod(c, if_given_with(c.network, ".network"@)), key) + asked("IP="@, without_pod(c, if_given(c.ip)), key) + asked("PublishPort="@, without_pod(c, views(c.publish_ports@)), key)) + asked("Environment="@, settings(c), key) + asked("Volume="@, views(c.volumes@), key) + asked("Tmpfs="@, views(c.tmpfs@), key) + asked("Entrypoint="@, if_given(c.entrypoint), key) + asked("Exec="@, if_given(c.exec_command), key) + asked("User="@, if_given(c.user), key) + asked("AutoUpdate="@, if_given(c.auto_update), key) + asked("Label="@, views(c.labels@), key) + asked("AddCapability="@, views(c.add_capabilities@), key) + asked("PodmanArgs="@, views(c.extra_args@), key)
}

spec fn asked_of_service(c: QuadletContainer, key: Seq<char>) -> Seq<Seq<char>> {
    asked("Restart="@, seq!["no"@], key) + asked("TimeoutStartSec="@, seq!["0"@], key) + asked("Type="@, if_given(c.service_type), key) + asked("RemainAfterExit="@, flag_given(c.remain_after_exit), key) + asked("TimeoutStopSec="@, if_given(c.timeout_stop_sec), key)
}

proof fn lemma_picked_dependencies(units: Seq<Seq<char>>, key: Seq<char>)
    ensures
        picked(dependency_entries(units), key) == asked("After="@, units, key) + asked(
            "Requires="@,
            units,
            key,
        ),
    decreases units.len(),
{
    lemma_key_shapes();
    if units.len() > 0 {
        let front = units.drop_last();
        lemma_picked_dependencies(front, key);
        let two = seq![("After="@, units.last()), ("Requires="@, units.last())];
        lemma_picked_sum(dependency_entries(front), two, key);
        assert(two.drop_last() =~= seq![("After="@, units.last())]);
        assert(two.drop_last().drop_last() =~= Seq::<(Seq<char>, Seq<char>)>::empty());
        reveal_with_fuel(picked, 3);
        assert(front + seq![units.last()] =~= units);
        assert(picked(dependency_entries(units), key) =~= asked("After="@, units, key) + asked(
            "Requires="@,
            units,
            key,
        ));
    } else {
        assert(units =~= Seq::<Seq<char>>::empty());
        assert(picked(dependency_entries(units), key) =~= asked("After="@, units, key) + asked(
            "Requires="@,
            units,
            key,
        ));
    }
}

proof fn lemma_picked_unit(c: QuadletContainer, key: Seq<char>)
    ensures
        picked(unit_entries(c), key) == asked_of_unit(c, key),
{
    let first = listed("Description="@, if_given(c.description));
    lemma_picked_list("Description="@, if_given(c.description), key);
    lemma_picked_dependencies(awaited_units(c), key);
    lemma_picked_sum(first, dependency_entries(awaited_units(c)), key);
    assert(picked(unit_entries(c), key) =~= asked_of_unit(c, key));
}

proof fn lemma_picked_attachment(c: QuadletContainer, key: Seq<char>)
    ensures
        picked(attachment_entries(c), key) == asked("Pod="@, if_given_with(c.pod, ".pod"@), key) + asked("Network="@, without_pod(c, if_given_with(c.network, ".network"@)), key) + asked("IP="@, without_pod(c, if_given(c.ip)), key) + asked("PublishPort="@, without_pod(c, views(c.publish_ports@)), key),
{
    let e0 = listed("Pod="@, if_given_with(c.pod, ".pod"@));
    lemma_picked_list("Pod="@, if_given_with(c.pod, ".pod"@), key);
    let e1 = listed("Network="@, without_pod(c, if_given_with(c.network, ".network"@)));
    lemma_picked_list("Network="@, without_pod(c, if_given_with(c.network, ".network"@)), key);
    let e2 = listed("IP="@, without_pod(c, if_given(c.ip)));
    lemma_picked_list("IP="@, without_pod(c, if_given(c.ip)), key);
    let e3 = listed("PublishPort="@, without_pod(c, views(c.publish_ports@)));
    lemma_picked_list("PublishPort="@, without_pod(c, views(c.publish_ports@)), key);
    lemma_picked_sum(e0, e1, key);
    lemma_picked_sum(e0 + e1, e2, key);
    lemma_picked_sum(e0 + e1 + e2, e3, key);
}

#[verifier::rlimit(60)]
proof fn lemma_picked_container(c: QuadletContainer, key: Seq<char>)
    ensures
        picked(container_entries(c), key) == asked_of_container(c, key),
{
    lemma_picked_attachment(c, key);
    let e0 = listed("ContainerName="@, seq![c.name@]);
    lemma_picked_list("ContainerName="@, seq![c.name@], key);
    let e1 = listed("Image="@, seq![c.image@]);
    lemma_picked_list("Image="@, seq![c.image@], key);
    let e2 = attachment_entries(c);
    lemma_picked_sum(e0, e1, key);
    lemma_picked_sum(e0 + e1, e2, key);
    let e3 = listed("Environment="@, settings(c));
    lemma_picked_list("Environment="@, settings(c), key);
    lemma_picked_sum(e0 + e1 + e2, e3, key);
    let e4 = listed("Volume="@, views(c.volumes@));
    lemma_picked_list("Volume="@, views(c.volumes@), key);
    lemma_picked_sum(e0 + e1 + e2 + e3, e4, key);
    let e5 = listed("Tmpfs="@, views(c.tmpfs@));
    lemma_picked_list("Tmpfs="@, views(c.tmpfs@), key);
    lemma_picked_sum(e0 + e1 + e2 + e3 + e4, e5, key);
    let e6 = listed("Entrypoint="@, if_given(c.entrypoint));
    lemma_picked_list("Entrypoint="@, if_given(c.entrypoint), key);
    lemma_picked_sum(e0 + e1 + e2 + e3 + e4 + e5, e6, key);
    let e7 = listed("Exec="@, if_given(c.exec_command));
    lemma_picked_list("Exec="@, if_given(c.exec_command), key);
    lemma_picked_sum(e0 + e1 + e2 + e3 + e4 + e5 + e6, e7, key);
    let e8 = listed("User="@, if_given(c.user));
    lemma_picked_list("User="@, if_given(c.user), key);
    lemma_picked_sum(e0 + e1 + e2 + e3 + e4 + e5 + e6 + e7, e8, key);
    let e9 = listed("AutoUpdate="@, if_given(c.auto_update));
    lemma_picked_list("AutoUpdate="@, if_given(c.auto_update), key);
    lemma_picked_sum(e0 + e1 + e2 + e3 + e4 + e5 + e6 + e7 + e8, e9, key);
    let e10 = listed("Label="@, views(c.labels@));
    lemma_picked_list("Label="@, views(c.labels@), key);
    lemma_picked_sum(e0 + e1 + e2 + e3 + e4 + e5 + e6 + e7 + e8 + e9, e10, key);
    let e11 = listed("AddCapability="@, views(c.add_capabilities@));
    lemma_picked_list("AddCapability="@, views(c.add_capabilities@), key);
    lemma_picked_sum(e0 + e1 + e2 + e3 + e4 + e5 + e6 + e7 + e8 + e9 + e10, e11, key);
    let e12 = listed("PodmanArgs="@, views(c.extra_args@));
    lemma_picked_list("PodmanArgs="@, views(c.extra_args@), key);
    lemma_picked_sum(e0 + e1 + e2 + e3 + e4 + e5 + e6 + e7 + e8 + e9 + e10 + e11, e12, key);
}

proof fn lemma_picked_service(c: QuadletContainer, key: Seq<char>)
    ensures
        picked(service_entries(c), key) == asked_of_service(c, key),
{
    let e0 = listed("Restart="@, seq!["no"@]);
    lemma_picked_list("Restart="@, seq!["no"@], key);
    let e1 = listed("TimeoutStartSec="@, seq!["0"@]);
    lemma_picked_list("TimeoutStartSec="@, seq!["0"@], key);
    let e2 = listed("Type="@, if_given(c.service_type));
    lemma_picked_list("Type="@, if_given(c.service_type), key);
    let e3 = listed("RemainAfterExit="@, flag_given(c.remain_after_exit));
    lemma_picked_list("RemainAfterExit="@, flag_given(c.remain_after_exit), key);
    let e4 = listed("TimeoutStopSec="@, if_given(c.timeout_stop_sec));
    lemma_picked_list("TimeoutStopSec="@, if_given(c.timeout_stop_sec), key);
    lemma_picked_sum(e0, e1, key);
    lemma_picked_sum(e0 + e1, e2, key);
    lemma_picked_sum(e0 + e1 + e2, e3, key);
    lemma_picked_sum(e0 + e1 + e2 + e3, e4, key);
}

/// The text of a section.
spec fn section_text(s: UnitSection) -> Seq<char> {
    s.heading + "\n"@ + entries_text(s.entries)
}

proof fn lemma_section_text(s: UnitSection)
    ensures
        text_of(section_lines(s)) == section_text(s),
{
    reveal_strlit("");
    let one = seq![s.heading];
    lemma_wrapped_sum(one, entry_lines(s.entries), ""@, "\n"@);
    assert(one.drop_last() =~= Seq::<Seq<char>>::empty());
    reveal_with_fuel(wrapped, 2);
    assert(text_of(one) =~= s.heading + "\n"@);
}

/// A section more adds its text, behind an empty line.
proof fn lemma_push_section(v: Seq<UnitSection>, s: UnitSection)
    ensures
        text_of(unit_lines(v.push(s))) == if v.len() == 0 {
            section_text(s)
        } else {
            text_of(unit_lines(v)) + "\n"@ + section_text(s)
        },
{
    lemma_section_text(s);
    assert(v.push(s).drop_last() =~= v);
    assert(v.push(s).last() == s);
    if v.len() > 0 {
        reveal_strlit("");
        let a = unit_lines(v);
        let gap = seq![""@];
        lemma_wrapped_sum(a, gap, ""@, "\n"@);
        lemma_wrapped_sum(a + gap, section_lines(s), ""@, "\n"@);
        assert(gap.drop_last() =~= Seq::<Seq<char>>::empty());
        reveal_with_fuel(wrapped, 2);
        assert(text_of(gap) =~= "\n"@);
    }
}

/// Entries that follow others in a text.
proof fn lemma_grow(
    t: Seq<char>,
    head: Seq<char>,
    e: Seq<(Seq<char>, Seq<char>)>,
    f: Seq<(Seq<char>, Seq<char>)>,
    x: Seq<char>,
)
    requires
        t == head + entries_text(e),
        x == entries_text(f),
    ensures
        t + x == head + entries_text(e + f),
{
    lemma_entries_text_sum(e, f);
    assert(t + x =~= head + (entries_text(e) + entries_text(f)));
}

proof fn lemma_dependency_text(c: QuadletContainer, n: int)
    requires
        0 <= n <= c.depends_on@.len(),
    ensures
        entries_text(dependency_entries(awaited_units(c).take(n))) == flat(
            c.depends_on@.take(n),
            container_dependency(c.pod),
        ),
    decreases n,
{
    if n > 0 {
        lemma_dependency_text(c, n - 1);
        let units = awaited_units(c).take(n);
        let deps = c.depends_on@.take(n);
        assert(units.drop_last() =~= awaited_units(c).take(n - 1));
        assert(deps.drop_last() =~= c.depends_on@.take(n - 1));
        let unit = units.last();
        let two = seq![("After="@, unit), ("Requires="@, unit)];
        lemma_entries_text_sum(dependency_entries(units.drop_last()), two);
        assert(two =~= listed("After="@, seq![unit]) + listed("Requires="@, seq![unit]));
        lemma_entries_text_sum(listed("After="@, seq![unit]), listed("Requires="@, seq![unit]));
        lemma_one_text("After="@, unit);
        lemma_one_text("Requires="@, unit);
        assert("\nRequires="@ =~= "\n"@ + "Requires="@) by {
            reveal_strlit("\nRequires=");
            reveal_strlit("\n");
            reveal_strlit("Requires=");
        }
        assert(unit == c.depends_on@[n - 1]@ + (if opt_view(c.pod) == Some(c.depends_on@[n - 1]@) {
            ".pod"@
        } else {
            ".service"@
        }));
        assert("After="@ + unit + "\nRequires="@ + unit + "\n"@ =~= "After="@ + unit + "\n"@ + (
        "Requires="@ + unit + "\n"@));
    } else {
        assert(entries_text(Seq::<(Seq<char>, Seq<char>)>::empty()) =~= Seq::<char>::empty());
    }
}

proof fn lemma_settings_text(c: QuadletContainer, n: int)
    requires
        0 <= n <= c.environment@.len(),
    ensures
        wrapped(settings(c).take(n), "Environment="@, "\n"@) == flat(
            c.environment@.take(n),
            environment_line(),
        ),
    decreases n,
{
    if n > 0 {
        lemma_settings_text(c, n - 1);
        let v = settings(c).take(n);
        let e = c.environment@.take(n);
        assert(v.drop_last() =~= settings(c).take(n - 1));
        assert(e.drop_last() =~= c.environment@.take(n - 1));
        let rest = wrapped(v.drop_last(), "Environment="@, "\n"@);
        assert(rest + "Environment="@ + v.last() + "\n"@ =~= rest + ("Environment="@ + e.last().0@
            + "="@ + e.last().1@ + "\n"@));
    }
}

#[verifier::rlimit(60)]
proof fn lemma_attachment_text(c: QuadletContainer)
    ensures
        entries_text(attachment_entries(c)) == attachment(c),
{
    let e0 = listed("Pod="@, if_given_with(c.pod, ".pod"@));
    let e1 = listed("Network="@, without_pod(c, if_given_with(c.network, ".network"@)));
    let e2 = listed("IP="@, without_pod(c, if_given(c.ip)));
    let e3 = listed("PublishPort="@, without_pod(c, views(c.publish_ports@)));
    lemma_entries_text_sum(e0, e1);
    lemma_entries_text_sum(e0 + e1, e2);
    lemma_entries_text_sum(e0 + e1 + e2, e3);
    lemma_list_text("Pod="@, if_given_with(c.pod, ".pod"@));
    lemma_list_text("Network="@, without_pod(c, if_given_with(c.network, ".network"@)));
    lemma_list_text("IP="@, without_pod(c, if_given(c.ip)));
    lemma_list_text("PublishPort="@, without_pod(c, views(c.publish_ports@)));
    assert(".pod\n"@ =~= ".pod"@ + "\n"@) by {
        reveal_strlit(".pod\n");
        reveal_strlit(".pod");
        reveal_strlit("\n");
    }
    assert(".network\n"@ =~= ".network"@ + "\n"@) by {
        reveal_strlit(".network\n");
        reveal_strlit(".network");
        reveal_strlit("\n");
    }
    if c.pod is Some {
        if c.pod->0@.len() > 0 {
            let pod = c.pod->0@;
            lemma_one_text("Pod="@, pod + ".pod"@);
            assert("Pod="@ + (pod + ".pod"@) + "\n"@ =~= "Pod="@ + pod + ".pod\n"@);
        }
        assert(entries_text(attachment_entries(c)) =~= attachment(c));
    } else {
        lemma_opt_text(c.ip, "IP="@);
        if c.network is Some && c.network->0@.len() > 0 {
            let network = c.network->0@;
            lemma_one_text("Network="@, network + ".network"@);
            assert("Network="@ + (network + ".network"@) + "\n"@ =~= "Network="@ + network
                + ".network\n"@);
        }
        assert(entries_text(attachment_entries(c)) =~= attachment(c));
    }
}

/// What stands before the container's own section.
spec fn opening(c: QuadletContainer) -> Seq<char> {
    given(
        present(c.description) || c.depends_on@.len() > 0,
        "[Unit]\n"@ + opt_entry(c.description, "Description="@, "\n"@) + flat(
            c.depends_on@,
            container_dependency(c.pod),
        ) + "\n"@,
    )
}

#[verifier::rlimit(60)]
proof fn lemma_opening_text(c: QuadletContainer)
    ensures
        opening(c) == if first_sections(c).len() == 0 {
            Seq::empty()
        } else {
            text_of(unit_lines(first_sections(c))) + "\n"@
        },
{
    let v = first_sections(c);
    if v.len() > 0 {
        let s = UnitSection { heading: "[Unit]"@, entries: unit_entries(c) };
        let none = Seq::<UnitSection>::empty();
        assert(v =~= none.push(s));
        lemma_push_section(none, s);
        let first = listed("Description="@, if_given(c.description));
        lemma_entries_text_sum(first, dependency_entries(awaited_units(c)));
        lemma_opt_text(c.description, "Description="@);
        lemma_dependency_text(c, c.depends_on@.len() as int);
        assert(awaited_units(c).take(c.depends_on@.len() as int) =~= awaited_units(c));
        assert(c.depends_on@.take(c.depends_on@.len() as int) =~= c.depends_on@);
        assert("[Unit]\n"@ =~= "[Unit]"@ + "\n"@) by {
            reveal_strlit("[Unit]\n");
            reveal_strlit("[Unit]");
            reveal_strlit("\n");
        }
        assert(opening(c) =~= section_text(s) + "\n"@);
    }
}

/// The container's section begins with its name and image.
proof fn lemma_container_head(c: QuadletContainer, u: Seq<char>)
    ensures
        u + "[Container]\nContainerName="@ + c.name@ + "\nImage="@ + c.image@ + "\n"@ == u + (
        "[Container]"@ + "\n"@) + entries_text(
            listed("ContainerName="@, seq![c.name@]) + listed("Image="@, seq![c.image@]),
        ),
{
    lemma_one_text("ContainerName="@, c.name@);
    lemma_one_text("Image="@, c.image@);
    lemma_entries_text_sum(
        listed("ContainerName="@, seq![c.name@]),
        listed("Image="@, seq![c.image@]),
    );
    assert("[Container]\nContainerName="@ =~= "[Container]"@ + "\n"@ + "ContainerName="@) by {
        reveal_strlit("[Container]\nContainerName=");
        reveal_strlit("[Container]");
        reveal_strlit("\n");
        reveal_strlit("ContainerName=");
    }
    assert("\nImage="@ =~= "\n"@ + "Image="@) by {
        reveal_strlit("\nImage=");
        reveal_strlit("\n");
        reveal_strlit("Image=");
    }
    let a = "[Container]"@;
    let b = "\n"@;
    let n = "ContainerName="@;
    let i = "Image="@;
    assert(u + (a + b + n) + c.name@ + (b + i) + c.image@ + b =~= u + (a + b) + ((n + c.name@ + b)
        + (i + c.image@ + b)));
}

/// The service's section begins with two settings of every container.
proof fn lemma_service_head(u: Seq<char>)
    ensures
        u + "\n[Service]\nRestart=no\nTimeoutStartSec=0\n"@ == u + "\n"@ + ("[Service]"@
            + "\n"@) + entries_text(
            listed("Restart="@, seq!["no"@]) + listed("TimeoutStartSec="@, seq!["0"@]),
        ),
{
    lemma_one_text("Restart="@, "no"@);
    lemma_one_text("TimeoutStartSec="@, "0"@);
    lemma_entries_text_sum(
        listed("Restart="@, seq!["no"@]),
        listed("TimeoutStartSec="@, seq!["0"@]),
    );
    let a = "\n"@ + "[Service]"@ + "\n"@ + "Restart="@ + "no"@ + "\n"@ + "TimeoutStartSec="@ + "0"@
        + "\n"@;
    assert("\n[Service]\nRestart=no\nTimeoutStartSec=0\n"@ =~= a) by {
        reveal_strlit("\n[Service]\nRestart=no\nTimeoutStartSec=0\n");
        reveal_strlit("\n");
        reveal_strlit("[Service]");
        reveal_strlit("Restart=");
        reveal_strlit("no");
        reveal_strlit("TimeoutStartSec=");
        reveal_strlit("0");
    }
    assert(u + a =~= u + "\n"@ + ("[Service]"@ + "\n"@) + (("Restart="@ + "no"@ + "\n"@) + (
    "TimeoutStartSec="@ + "0"@ + "\n"@)));
}

/// The text up to the end of the container's section.
spec fn text_to_container(c: QuadletContainer) -> Seq<char> {
    opening(c) + "[Container]\nContainerName="@ + c.name@ + "\nImage="@ + c.image@ + "\n"@
        + attachment(c) + flat(c.environment@, environment_line()) + wrapped(
        views(c.volumes@),
        "Volume="@,
        "\n"@,
    ) + wrapped(views(c.tmpfs@), "Tmpfs="@, "\n"@) + opt_entry(
        c.entrypoint,
        "Entrypoint="@,
        "\n"@,
    ) + opt_entry(c.exec_command, "Exec="@, "\n"@) + opt_entry(c.user, "User="@, "\n"@)
        + opt_entry(c.auto_update, "AutoUpdate="@, "\n"@) + wrapped(
        views(c.labels@),
        "Label="@,
        "\n"@,
    ) + wrapped(views(c.add_capabilities@), "AddCapability="@, "\n"@) + wrapped(
        views(c.extra_args@),
        "PodmanArgs="@,
        "\n"@,
    )
}

#[verifier::rlimit(60)]
proof fn lemma_text_to_container(c: QuadletContainer)
    ensures
        text_to_container(c) == opening(c) + ("[Container]"@ + "\n"@) + entries_text(
            container_entries(c),
        ),
{
    let u = opening(c);
    let h = u + ("[Container]"@ + "\n"@);
    lemma_container_head(c, u);
    lemma_attachment_text(c);
    lemma_list_text("Environment="@, settings(c));
    lemma_settings_text(c, c.environment@.len() as int);
    assert(settings(c).take(c.environment@.len() as int) =~= settings(c));
    assert(c.environment@.take(c.environment@.len() as int) =~= c.environment@);
    let e1 = listed("ContainerName="@, seq![c.name@]) + listed("Image="@, seq![c.image@]);
    let t1 = u + "[Container]\nContainerName="@ + c.name@ + "\nImage="@ + c.image@ + "\n"@;
    let e2 = e1 + attachment_entries(c);
    let t2 = t1 + attachment(c);
    lemma_grow(t1, h, e1, attachment_entries(c), attachment(c));
    let e3 = e2 + listed("Environment="@, settings(c));
    let t3 = t2 + flat(c.environment@, environment_line());
    lemma_grow(
        t2,
        h,
        e2,
        listed("Environment="@, settings(c)),
        flat(c.environment@, environment_line()),
    );
    lemma_list_text("Volume="@, views(c.volumes@));
    let e4 = e3 + listed("Volume="@, views(c.volumes@));
    let t4 = t3 + wrapped(views(c.volumes@), "Volume="@, "\n"@);
    lemma_grow(t3, h, e3, listed("Volume="@, views(c.volumes@)), wrapped(views(c.volumes@), "Volume="@, "\n"@));
    lemma_list_text("Tmpfs="@, views(c.tmpfs@));
    let e5 = e4 + listed("Tmpfs="@, views(c.tmpfs@));
    let t5 = t4 + wrapped(views(c.tmpfs@), "Tmpfs="@, "\n"@);
    lemma_grow(t4, h, e4, listed("Tmpfs="@, views(c.tmpfs@)), wrapped(views(c.tmpfs@), "Tmpfs="@, "\n"@));
    lemma_opt_text(c.entrypoint, "Entrypoint="@);
    let e6 = e5 + listed("Entrypoint="@, if_given(c.entrypoint));
    let t6 = t5 + opt_entry(c.entrypoint, "Entrypoint="@, "\n"@);
    lemma_grow(t5, h, e5, listed("Entrypoint="@, if_given(c.entrypoint)), opt_entry(c.entrypoint, "Entrypoint="@, "\n"@));
    lemma_opt_text(c.exec_command, "Exec="@);
    let e7 = e6 + listed("Exec="@, if_given(c.exec_command));
    let t7 = t6 + opt_entry(c.exec_command, "Exec="@, "\n"@);
    lemma_grow(t6, h, e6, listed("Exec="@, if_given(c.exec_command)), opt_entry(c.exec_command, "Exec="@, "\n"@));
    lemma_opt_text(c.user, "User="@);
    let e8 = e7 + listed("User="@, if_given(c.user));
    let t8 = t7 + opt_entry(c.user, "User="@, "\n"@);
    lemma_grow(t7, h, e7, listed("User="@, if_given(c.user)), opt_entry(c.user, "User="@, "\n"@));
    lemma_opt_text(c.auto_update, "AutoUpdate="@);
    let e9 = e8 + listed("AutoUpdate="@, if_given(c.auto_update));
    let t9 = t8 + opt_entry(c.auto_update, "AutoUpdate="@, "\n"@);
    lemma_grow(t8, h, e8, listed("AutoUpdate="@, if_given(c.auto_update)), opt_entry(c.auto_update, "AutoUpdate="@, "\n"@));
    lemma_list_text("Label="@, views(c.labels@));
    let e10 = e9 + listed("Label="@, views(c.labels@));
    let t10 = t9 + wrapped(views(c.labels@), "Label="@, "\n"@);
    lemma_grow(t9, h, e9, listed("Label="@, views(c.labels@)), wrapped(views(c.labels@), "Label="@, "\n"@));
    lemma_list_text("AddCapability="@, views(c.add_capabilities@));
    let e11 = e10 + listed("AddCapability="@, views(c.add_capabilities@));
    let t11 = t10 + wrapped(views(c.add_capabilities@), "AddCapability="@, "\n"@);
    lemma_grow(t10, h, e10, listed("AddCapability="@, views(c.add_capabilities@)), wrapped(views(c.add_capabilities@), "AddCapability="@, "\n"@));
    lemma_list_text("PodmanArgs="@, views(c.extra_args@));
    let e12 = e11 + listed("PodmanArgs="@, views(c.extra_args@));
    let t12 = t11 + wrapped(views(c.extra_args@), "PodmanArgs="@, "\n"@);
    lemma_grow(t11, h, e11, listed("PodmanArgs="@, views(c.extra_args@)), wrapped(views(c.extra_args@), "PodmanArgs="@, "\n"@));
}

proof fn lemma_remain_text(o: Option<bool>)
    ensures
        entries_text(listed("RemainAfterExit="@, flag_given(o))) == remain_line(o),
{
    match o {
        Some(b) => {
            lemma_one_text("RemainAfterExit="@, flag(b));
            assert(flag_given(o) =~= seq![flag(b)]);
        },
        None => {
            lemma_list_text("RemainAfterExit="@, Seq::empty());
        },
    }
}

#[verifier::rlimit(60)]
proof fn lemma_text_to_service(c: QuadletContainer, u: Seq<char>)
    ensures
        u + "\n[Service]\nRestart=no\nTimeoutStartSec=0\n"@ + opt_entry(
            c.service_type,
            "Type="@,
            "\n"@,
        ) + remain_line(c.remain_after_exit) + opt_entry(
            c.timeout_stop_sec,
            "TimeoutStopSec="@,
            "\n"@,
        ) == u + "\n"@ + section_text(
            UnitSection { heading: "[Service]"@, entries: service_entries(c) },
        ),
{
    let h = u + "\n"@ + ("[Service]"@ + "\n"@);
    lemma_service_head(u);
    lemma_opt_text(c.service_type, "Type="@);
    lemma_remain_text(c.remain_after_exit);
    lemma_opt_text(c.timeout_stop_sec, "TimeoutStopSec="@);
    let e1 = listed("Restart="@, seq!["no"@]) + listed("TimeoutStartSec="@, seq!["0"@]);
    let t1 = u + "\n[Service]\nRestart=no\nTimeoutStartSec=0\n"@;
    let f2 = listed("Type="@, if_given(c.service_type));
    let x2 = opt_entry(c.service_type, "Type="@, "\n"@);
    let f3 = listed("RemainAfterExit="@, flag_given(c.remain_after_exit));
    let x3 = remain_line(c.remain_after_exit);
    let f4 = listed("TimeoutStopSec="@, if_given(c.timeout_stop_sec));
    let x4 = opt_entry(c.timeout_stop_sec, "TimeoutStopSec="@, "\n"@);
    lemma_grow(t1, h, e1, f2, x2);
    lemma_grow(t1 + x2, h, e1 + f2, f3, x3);
    lemma_grow(t1 + x2 + x3, h, e1 + f2 + f3, f4, x4);
    lemma_regrouped(u + "\n"@, "[Service]"@ + "\n"@, entries_text(service_entries(c)));
}

/// The last section, behind what stands before it.
proof fn lemma_install_text(c: QuadletContainer, u: Seq<char>)
    ensures
        u + opt_entry(c.wanted_by, "\n[Install]\nWantedBy="@, "\n"@) == if if_given(
            c.wanted_by,
        ).len() > 0 {
            u + "\n"@ + section_text(
                UnitSection {
                    heading: "[Install]"@,
                    entries: listed("WantedBy="@, if_given(c.wanted_by)),
                },
            )
        } else {
            u
        },
{
    if if_given(c.wanted_by).len() > 0 {
        let target = c.wanted_by->0@;
        lemma_one_text("WantedBy="@, target);
        let a = "\n"@ + "[Install]"@ + "\n"@ + "WantedBy="@;
        assert("\n[Install]\nWantedBy="@ =~= a) by {
            reveal_strlit("\n[Install]\nWantedBy=");
            reveal_strlit("\n");
            reveal_strlit("[Install]");
            reveal_strlit("WantedBy=");
        }
        assert(u + (a + target + "\n"@) =~= u + "\n"@ + ("[Install]"@ + "\n"@ + ("WantedBy="@
            + target + "\n"@)));
    } else {
        assert(u + Seq::<char>::empty() =~= u);
    }
}

/// A container unit is the text of its sections.
#[verifier::rlimit(60)]
proof fn lemma_container_sections(c: QuadletContainer)
    ensures
        container_text(c) == text_of(unit_lines(container_sections(c))),
{
    let u = opening(c);
    let one = UnitSection { heading: "[Container]"@, entries: container_entries(c) };
    let two = UnitSection { heading: "[Service]"@, entries: service_entries(c) };
    let v0 = first_sections(c);
    lemma_opening_text(c);
    lemma_text_to_container(c);
    lemma_push_section(v0, one);
    lemma_regrouped(u, "[Container]"@ + "\n"@, entries_text(container_entries(c)));
    let t1 = text_to_container(c);
    if v0.len() == 0 {
        assert(Seq::<char>::empty() + section_text(one) =~= section_text(one));
    }
    assert(t1 == text_of(unit_lines(v0.push(one))));
    lemma_push_section(v0.push(one), two);
    lemma_text_to_service(c, t1);
    let t2 = text_of(unit_lines(main_sections(c)));
    let last = opt_entry(c.wanted_by, "\n[Install]\nWantedBy="@, "\n"@);
    assert(container_text(c) == t2 + last);
    lemma_install_text(c, t2);
    if if_given(c.wanted_by).len() > 0 {
        lemma_push_section(
            main_sections(c),
            UnitSection {
                heading: "[Install]"@,
                entries: listed("WantedBy="@, if_given(c.wanted_by)),
            },
        );
    }
}

/// A line with a visible ending is one.
proof fn lemma_ended_line(s: Seq<char>, ending: Seq<char>)
    requires
        is_line(s),
        is_line(ending),
        ending.len() > 0,
    ensures
        is_line(s + ending),
{
    let line = s + ending;
    assert forall|i: int| 0 <= i < line.len() implies #[trigger] line[i] != '\n' by {
        if i < s.len() {
            assert(line[i] == s[i]);
        } else {
            assert(line[i] == ending[i - s.len()]);
        }
    }
    assert(line.last() == ending.last());
}

proof fn lemma_dependencies_are_entries(units: Seq<Seq<char>>)
    requires
        are_lines(units),
    ensures
        are_entries(dependency_entries(units)),
    decreases units.len(),
{
    lemma_keys();
    if units.len() > 0 {
        let front = units.drop_last();
        assert(is_line(units[units.len() - 1]));
        assert forall|i: int| 0 <= i < front.len() implies is_line(#[trigger] front[i]) by {
            assert(front[i] == units[i]);
        }
        lemma_dependencies_are_entries(front);
        let two = seq![("After="@, units.last()), ("Requires="@, units.last())];
        assert(are_entries(two));
        lemma_entries_sum(dependency_entries(front), two);
    }
}

proof fn lemma_unit_entries(c: QuadletContainer)
    requires
        has_line_texts(c),
    ensures
        are_entries(unit_entries(c)),
{
    lemma_keys();
    let units = awaited_units(c);
    reveal_strlit(".pod");
    reveal_strlit(".service");
    assert forall|i: int| 0 <= i < units.len() implies is_line(#[trigger] units[i]) by {
        assert(is_line(views(c.depends_on@)[i]));
        lemma_ended_line(c.depends_on@[i]@, ".pod"@);
        lemma_ended_line(c.depends_on@[i]@, ".service"@);
    }
    lemma_dependencies_are_entries(units);
    lemma_listed_are_entries("Description="@, if_given(c.description));
    lemma_entries_sum(
        listed("Description="@, if_given(c.description)),
        dependency_entries(units),
    );
}

proof fn lemma_attachment_entries(c: QuadletContainer)
    requires
        has_line_texts(c),
    ensures
        are_entries(attachment_entries(c)),
{
    lemma_keys();
    reveal_strlit(".pod");
    reveal_strlit(".network");
    if if_given(c.pod).len() > 0 {
        assert(is_line(if_given(c.pod)[0]));
        lemma_ended_line(c.pod->0@, ".pod"@);
    }
    if if_given(c.network).len() > 0 {
        assert(is_line(if_given(c.network)[0]));
        lemma_ended_line(c.network->0@, ".network"@);
    }
    let e0 = listed("Pod="@, if_given_with(c.pod, ".pod"@));
    lemma_listed_are_entries("Pod="@, if_given_with(c.pod, ".pod"@));
    let e1 = listed("Network="@, without_pod(c, if_given_with(c.network, ".network"@)));
    lemma_listed_are_entries("Network="@, without_pod(c, if_given_with(c.network, ".network"@)));
    lemma_entries_sum(e0, e1);
    let e2 = listed("IP="@, without_pod(c, if_given(c.ip)));
    lemma_listed_are_entries("IP="@, without_pod(c, if_given(c.ip)));
    lemma_entries_sum(e0 + e1, e2);
    let e3 = listed("PublishPort="@, without_pod(c, views(c.publish_ports@)));
    lemma_listed_are_entries("PublishPort="@, without_pod(c, views(c.publish_ports@)));
    lemma_entries_sum(e0 + e1 + e2, e3);
}

#[verifier::rlimit(60)]
proof fn lemma_container_entries(c: QuadletContainer)
    requires
        has_line_texts(c),
    ensures
        are_entries(container_entries(c)),
{
    lemma_keys();
    lemma_attachment_entries(c);
    let e0 = listed("ContainerName="@, seq![c.name@]);
    lemma_listed_are_entries("ContainerName="@, seq![c.name@]);
    let e1 = listed("Image="@, seq![c.image@]);
    lemma_listed_are_entries("Image="@, seq![c.image@]);
    lemma_entries_sum(e0, e1);
    let e2 = attachment_entries(c);
    lemma_entries_sum(e0 + e1, e2);
    let e3 = listed("Environment="@, settings(c));
    lemma_listed_are_entries("Environment="@, settings(c));
    lemma_entries_sum(e0 + e1 + e2, e3);
    let e4 = listed("Volume="@, views(c.volumes@));
    lemma_listed_are_entries("Volume="@, views(c.volumes@));
    lemma_entries_sum(e0 + e1 + e2 + e3, e4);
    let e5 = listed("Tmpfs="@, views(c.tmpfs@));
    lemma_listed_are_entries("Tmpfs="@, views(c.tmpfs@));
    lemma_entries_sum(e0 + e1 + e2 + e3 + e4, e5);
    let e6 = listed("Entrypoint="@, if_given(c.entrypoint));
    lemma_listed_are_entries("Entrypoint="@, if_given(c.entrypoint));
    lemma_entries_sum(e0 + e1 + e2 + e3 + e4 + e5, e6);
    let e7 = listed("Exec="@, if_given(c.exec_command));
    lemma_listed_are_entries("Exec="@, if_given(c.exec_command));
    lemma_entries_sum(e0 + e1 + e2 + e3 + e4 + e5 + e6, e7);
    let e8 = listed("User="@, if_given(c.user));
    lemma_listed_are_entries("User="@, if_given(c.user));
    lemma_entries_sum(e0 + e1 + e2 + e3 + e4 + e5 + e6 + e7, e8);
    let e9 = listed("AutoUpdate="@, if_given(c.auto_update));
    lemma_listed_are_entries("AutoUpdate="@, if_given(c.auto_update));
    lemma_entries_sum(e0 + e1 + e2 + e3 + e4 + e5 + e6 + e7 + e8, e9);
    let e10 = listed("Label="@, views(c.labels@));
    lemma_listed_are_entries("Label="@, views(c.labels@));
    lemma_entries_sum(e0 + e1 + e2 + e3 + e4 + e5 + e6 + e7 + e8 + e9, e10);
    let e11 = listed("AddCapability="@, views(c.add_capabilities@));
    lemma_listed_are_entries("AddCapability="@, views(c.add_capabilities@));
    lemma_entries_sum(e0 + e1 + e2 + e3 + e4 + e5 + e6 + e7 + e8 + e9 + e10, e11);
    let e12 = listed("PodmanArgs="@, views(c.extra_args@));
    lemma_listed_are_entries("PodmanArgs="@, views(c.extra_args@));
    lemma_entries_sum(e0 + e1 + e2 + e3 + e4 + e5 + e6 + e7 + e8 + e9 + e10 + e11, e12);
}

proof fn lemma_service_entries(c: QuadletContainer)
    requires
        has_line_texts(c),
    ensures
        are_entries(service_entries(c)),
{
    lemma_keys();
    reveal_strlit("no");
    reveal_strlit("0");
    reveal_strlit("true");
    reveal_strlit("false");
    let e0 = listed("Restart="@, seq!["no"@]);
    lemma_listed_are_entries("Restart="@, seq!["no"@]);
    let e1 = listed("TimeoutStartSec="@, seq!["0"@]);
    lemma_listed_are_entries("TimeoutStartSec="@, seq!["0"@]);
    lemma_entries_sum(e0, e1);
    let e2 = listed("Type="@, if_given(c.service_type));
    lemma_listed_are_entries("Type="@, if_given(c.service_type));
    lemma_entries_sum(e0 + e1, e2);
    let e3 = listed("RemainAfterExit="@, flag_given(c.remain_after_exit));
    lemma_listed_are_entries("RemainAfterExit="@, flag_given(c.remain_after_exit));
    lemma_entries_sum(e0 + e1 + e2, e3);
    let e4 = listed("TimeoutStopSec="@, if_given(c.timeout_stop_sec));
    lemma_listed_are_entries("TimeoutStopSec="@, if_given(c.timeout_stop_sec));
    lemma_entries_sum(e0 + e1 + e2 + e3, e4);
}

#[verifier::rlimit(60)]
proof fn lemma_sections(c: QuadletContainer)
    requires
        has_line_texts(c),
    ensures
        forall|i: int|
            0 <= i < container_sections(c).len() ==> is_section(#[trigger] container_sections(c)[i]),
{
    lemma_headings();
    lemma_keys();
    lemma_unit_entries(c);
    lemma_container_entries(c);
    lemma_service_entries(c);
    lemma_listed_are_entries("WantedBy="@, if_given(c.wanted_by));
}

/// What a container unit says of a key in a section.
spec fn container_says(c: QuadletContainer, section: Seq<char>, key: Seq<char>) -> Seq<
    Seq<char>,
> {
    if section == "[Unit]"@ {
        asked_of_unit(c, key)
    } else if section == "[Container]"@ {
        asked_of_container(c, key)
    } else if section == "[Service]"@ {
        asked_of_service(c, key)
    } else if section == "[Install]"@ {
        asked("WantedBy="@, if_given(c.wanted_by), key)
    } else {
        Seq::empty()
    }
}

proof fn lemma_flat_push(v: Seq<UnitSection>, s: UnitSection, section: Seq<char>, key: Seq<char>)
    ensures
        flat(v.push(s), section_values(section, key)) == flat(v, section_values(section, key))
            + section_values(section, key)(s),
{
    assert(v.push(s).drop_last() =~= v);
    assert(v.push(s).last() == s);
}

#[verifier::rlimit(60)]
proof fn lemma_container_says(c: QuadletContainer, section: Seq<char>, key: Seq<char>)
    requires
        has_line_texts(c),
        is_key(key),
    ensures
        unit_values(container_text(c), section, key) == container_says(c, section, key),
{
    lemma_container_sections(c);
    lemma_sections(c);
    lemma_unit(container_sections(c), section, key);
    lemma_headings();
    lemma_picked_unit(c, key);
    lemma_picked_container(c, key);
    lemma_picked_service(c, key);
    lemma_picked_list("WantedBy="@, if_given(c.wanted_by), key);
    let f = section_values(section, key);
    let unit = UnitSection { heading: "[Unit]"@, entries: unit_entries(c) };
    let one = UnitSection { heading: "[Container]"@, entries: container_entries(c) };
    let two = UnitSection { heading: "[Service]"@, entries: service_entries(c) };
    let three = UnitSection {
        heading: "[Install]"@,
        entries: listed("WantedBy="@, if_given(c.wanted_by)),
    };
    let none = Seq::<UnitSection>::empty();
    let v0 = first_sections(c);
    lemma_flat_push(none, unit, section, key);
    assert(flat(none, f) =~= Seq::<Seq<char>>::empty());
    if v0.len() > 0 {
        assert(v0 =~= none.push(unit));
        assert(flat(v0, f) =~= f(unit));
    } else {
        assert(v0 =~= none);
        assert(if_given(c.description) =~= Seq::<Seq<char>>::empty());
        assert(awaited_units(c) =~= Seq::<Seq<char>>::empty());
        assert(asked_of_unit(c, key) =~= Seq::<Seq<char>>::empty());
        assert(flat(v0, f) =~= f(unit));
    }
    lemma_flat_push(v0, one, section, key);
    lemma_flat_push(v0.push(one), two, section, key);
    let all = f(unit) + f(one) + f(two);
    assert(flat(main_sections(c), f) == all);
    if if_given(c.wanted_by).len() > 0 {
        lemma_flat_push(main_sections(c), three, section, key);
    } else {
        assert(if_given(c.wanted_by) =~= Seq::<Seq<char>>::empty());
        assert(f(three) =~= Seq::<Seq<char>>::empty());
        assert(all + f(three) =~= all);
    }
    assert(flat(container_sections(c), f) == all + f(three));
    assert(all + f(three) =~= container_says(c, section, key));
}

/// The unit of a container gives each of its keys the values of the container, all of them and
/// in their order. Its network, its address and its published ports stand in the unit whether
/// or not the others are given, and not at all where the container belongs to a pod.
#[verifier::rlimit(100)]
#[verifier::spinoff_prover]
pub proof fn law_containers_have_their_keys(c: QuadletContainer)
    requires
        has_line_texts(c),
    ensures
        unit_values(container_text(c), "[Container]"@, "ContainerName="@) == seq![c.name@],
        unit_values(container_text(c), "[Container]"@, "Image="@) == seq![c.image@],
        unit_values(container_text(c), "[Container]"@, "Pod="@) == if_given_with(c.pod, ".pod"@),
        c.pod is None ==> unit_values(container_text(c), "[Container]"@, "Network="@)
            == if_given_with(c.network, ".network"@),
        c.pod is Some ==> unit_values(container_text(c), "[Container]"@, "Network="@)
            == Seq::<Seq<char>>::empty(),
        c.pod is None ==> unit_values(container_text(c), "[Container]"@, "IP="@) == if_given(c.ip),
        c.pod is Some ==> unit_values(container_text(c), "[Container]"@, "IP="@)
            == Seq::<Seq<char>>::empty(),
        c.pod is None ==> unit_values(container_text(c), "[Container]"@, "PublishPort="@)
            == views(c.publish_ports@),
        c.pod is Some ==> unit_values(container_text(c), "[Container]"@, "PublishPort="@)
            == Seq::<Seq<char>>::empty(),
        unit_values(container_text(c), "[Container]"@, "Environment="@) == settings(c),
        unit_values(container_text(c), "[Container]"@, "Volume="@) == views(c.volumes@),
        unit_values(container_text(c), "[Container]"@, "Tmpfs="@) == views(c.tmpfs@),
        unit_values(container_text(c), "[Container]"@, "Entrypoint="@) == if_given(c.entrypoint),
        unit_values(container_text(c), "[Container]"@, "Exec="@) == if_given(c.exec_command),
        unit_values(container_text(c), "[Container]"@, "User="@) == if_given(c.user),
        unit_values(container_text(c), "[Container]"@, "AutoUpdate="@) == if_given(c.auto_update),
        unit_values(container_text(c), "[Container]"@, "Label="@) == views(c.labels@),
        unit_values(container_text(c), "[Container]"@, "AddCapability="@)
            == views(c.add_capabilities@),
        unit_values(container_text(c), "[Container]"@, "PodmanArgs="@) == views(c.extra_args@),
{
    lemma_keys();
    lemma_key_shapes();
    lemma_headings();
    lemma_container_says(c, "[Container]"@, "ContainerName="@);
    assert(asked_of_container(c, "ContainerName="@) =~= seq![c.name@]);
    lemma_container_says(c, "[Container]"@, "Image="@);
    assert(asked_of_container(c, "Image="@) =~= seq![c.image@]);
    lemma_container_says(c, "[Container]"@, "Pod="@);
    assert(asked_of_container(c, "Pod="@) =~= if_given_with(c.pod, ".pod"@));
    lemma_container_says(c, "[Container]"@, "Network="@);
    assert(asked_of_container(c, "Network="@) =~= without_pod(c, if_given_with(c.network, ".network"@)));
    lemma_container_says(c, "[Container]"@, "IP="@);
    assert(asked_of_container(c, "IP="@) =~= without_pod(c, if_given(c.ip)));
    lemma_container_says(c, "[Container]"@, "PublishPort="@);
    assert(asked_of_container(c, "PublishPort="@) =~= without_pod(c, views(c.publish_ports@)));
    lemma_container_says(c, "[Container]"@, "Environment="@);
    assert(asked_of_container(c, "Environment="@) =~= settings(c));
    lemma_container_says(c, "[Container]"@, "Volume="@);
    assert(asked_of_container(c, "Volume="@) =~= views(c.volumes@));
    lemma_container_says(c, "[Container]"@, "Tmpfs="@);
    assert(asked_of_container(c, "Tmpfs="@) =~= views(c.tmpfs@));
    lemma_container_says(c, "[Container]"@, "Entrypoint="@);
    assert(asked_of_container(c, "Entrypoint="@) =~= if_given(c.entrypoint));
    lemma_container_says(c, "[Container]"@, "Exec="@);
    assert(asked_of_container(c, "Exec="@) =~= if_given(c.exec_command));
    lemma_container_says(c, "[Container]"@, "User="@);
    assert(asked_of_container(c, "User="@) =~= if_given(c.user));
    lemma_container_says(c, "[Container]"@, "AutoUpdate="@);
    assert(asked_of_container(c, "AutoUpdate="@) =~= if_given(c.auto_update));
    lemma_container_says(c, "[Container]"@, "Label="@);
    assert(asked_of_container(c, "Label="@) =~= views(c.labels@));
    lemma_container_says(c, "[Container]"@, "AddCapability="@);
    assert(asked_of_container(c, "AddCapability="@) =~= views(c.add_capabilities@));
    lemma_container_says(c, "[Container]"@, "PodmanArgs="@);
    assert(asked_of_container(c, "PodmanArgs="@) =~= views(c.extra_args@));
}

/// The unit of a container has its description, and comes after the units that it needs: its
/// pod's, or the service of that name.
#[verifier::rlimit(60)]
pub proof fn law_containers_wait_for_their_units(c: QuadletContainer)
    requires
        has_line_texts(c),
    ensures
        unit_values(container_text(c), "[Unit]"@, "Description="@) == if_given(c.description),
        unit_values(container_text(c), "[Unit]"@, "After="@) == awaited_units(c),
        unit_values(container_text(c), "[Unit]"@, "Requires="@) == awaited_units(c),
{
    lemma_keys();
    lemma_key_shapes();
    lemma_headings();
    lemma_container_says(c, "[Unit]"@, "Description="@);
    assert(asked_of_unit(c, "Description="@) =~= if_given(c.description));
    lemma_container_says(c, "[Unit]"@, "After="@);
    assert(asked_of_unit(c, "After="@) =~= awaited_units(c));
    lemma_container_says(c, "[Unit]"@, "Requires="@);
    assert(asked_of_unit(c, "Requires="@) =~= awaited_units(c));
}

/// The service of a container is started by the cluster alone: it is not restarted, and its
/// start takes the time that it needs. What the container says of its service stands with it.
#[verifier::rlimit(60)]
pub proof fn law_containers_are_services(c: QuadletContainer)
    requires
        has_line_texts(c),
    ensures
        unit_values(container_text(c), "[Service]"@, "Restart="@) == seq!["no"@],
        unit_values(container_text(c), "[Service]"@, "TimeoutStartSec="@) == seq!["0"@],
        unit_values(container_text(c), "[Service]"@, "Type="@) == if_given(c.service_type),
        unit_values(container_text(c), "[Service]"@, "RemainAfterExit="@)
            == flag_given(c.remain_after_exit),
        unit_values(container_text(c), "[Service]"@, "TimeoutStopSec="@)
            == if_given(c.timeout_stop_sec),
{
    lemma_keys();
    lemma_key_shapes();
    lemma_headings();
    lemma_container_says(c, "[Service]"@, "Restart="@);
    assert(asked_of_service(c, "Restart="@) =~= seq!["no"@]);
    lemma_container_says(c, "[Service]"@, "TimeoutStartSec="@);
    assert(asked_of_service(c, "TimeoutStartSec="@) =~= seq!["0"@]);
    lemma_container_says(c, "[Service]"@, "Type="@);
    assert(asked_of_service(c, "Type="@) =~= if_given(c.service_type));
    lemma_container_says(c, "[Service]"@, "RemainAfterExit="@);
    assert(asked_of_service(c, "RemainAfterExit="@) =~= flag_given(c.remain_after_exit));
    lemma_container_says(c, "[Service]"@, "TimeoutStopSec="@);
    assert(asked_of_service(c, "TimeoutStopSec="@) =~= if_given(c.timeout_stop_sec));
}

/// The keys that a container unit may have.
pub open spec fn is_container_key(section: Seq<char>, key: Seq<char>) -> bool {
    ||| section == "[Unit]"@ && (key == "Description="@ || key == "After="@ || key == "Requires="@)
    ||| section == "[Container]"@ && (key == "ContainerName="@ || key == "Image="@ || key == "Pod="@ || key == "Network="@ || key == "IP="@ || key == "PublishPort="@ || key == "Environment="@ || key == "Volume="@ || key == "Tmpfs="@ || key == "Entrypoint="@ || key == "Exec="@ || key == "User="@ || key == "AutoUpdate="@ || key == "Label="@ || key == "AddCapability="@ || key == "PodmanArgs="@)
    ||| section == "[Service]"@ && (key == "Restart="@ || key == "TimeoutStartSec="@ || key == "Type="@ || key == "RemainAfterExit="@ || key == "TimeoutStopSec="@)
    ||| section == "[Install]"@ && (key == "WantedBy="@)
}

/// The unit of a container is wanted by the target that is named, and by none where none is;
/// and no section has a key besides those of containers.
#[verifier::rlimit(60)]
pub proof fn law_containers_have_no_other_keys(
    c: QuadletContainer,
    section: Seq<char>,
    key: Seq<char>,
)
    requires
        has_line_texts(c),
        is_key(key),
    ensures
        unit_values(container_text(c), "[Install]"@, "WantedBy="@) == if_given(c.wanted_by),
        !is_container_key(section, key) ==> unit_values(container_text(c), section, key)
            == Seq::<Seq<char>>::empty(),
{
    lemma_keys();
    lemma_headings();
    lemma_container_says(c, "[Install]"@, "WantedBy="@);
    lemma_container_says(c, section, key);
    if !is_container_key(section, key) {
        assert(container_says(c, section, key) =~= Seq::<Seq<char>>::empty());
    }
}

// ---------------------------------------------------------------------------
// Volumes
// ---------------------------------------------------------------------------

/// What stands behind a beginning, for the options that have it.
pub open spec fn behind_start(start: Seq<char>) -> spec_fn(String) -> Seq<Seq<char>> {
    |o: String|
        if start.is_prefix_of(o@) {
            seq![o@.skip(start.len() as int)]
        } else {
            Seq::empty()
        }
}

/// The options that name neither the type nor the device.
pub open spec fn other_options() -> spec_fn(String) -> Seq<Seq<char>> {
    |o: String|
        if "type="@.is_prefix_of(o@) || "device="@.is_prefix_of(o@) {
            Seq::empty()
        } else {
            seq![o@]
        }
}

/// Whether the texts of a volume are lines.
pub open spec fn has_volume_lines(v: QuadletVolume) -> bool {
    &&& is_line(v.name@)
    &&& is_line(v.driver@)
    &&& are_lines(views(v.options@))
    &&& are_lines(views(v.labels@))
}

spec fn option_entry(o: Seq<char>) -> (Seq<char>, Seq<char>) {
    if "type="@.is_prefix_of(o) {
        ("Type="@, o.skip(5))
    } else if "device="@.is_prefix_of(o) {
        ("Device="@, o.skip(7))
    } else {
        ("Options="@, o)
    }
}

spec fn option_entries(options: Seq<String>) -> Seq<(Seq<char>, Seq<char>)> {
    Seq::new(options.len(), |i: int| option_entry(options[i]@))
}

spec fn volume_entries(v: QuadletVolume) -> Seq<(Seq<char>, Seq<char>)> {
    listed("VolumeName="@, seq![v.name@]) + listed("Driver="@, unless_missing(v.driver@))
        + option_entries(v.options@) + listed("Label="@, views(v.labels@))
}

/// A text as a list of one, or of none where it is empty.
pub open spec fn unless_missing(s: Seq<char>) -> Seq<Seq<char>> {
    if s.len() > 0 {
        seq![s]
    } else {
        Seq::empty()
    }
}

spec fn wanted_section() -> UnitSection {
    UnitSection {
        heading: "[Install]"@,
        entries: listed("WantedBy="@, seq!["multi-user.target"@]),
    }
}

spec fn described_section(text: Seq<char>) -> UnitSection {
    UnitSection { heading: "[Unit]"@, entries: listed("Description="@, seq![text]) }
}

spec fn described(v: QuadletVolume) -> Seq<UnitSection> {
    if has_type_option(v.options@) {
        seq![described_section("Volume "@ + v.name@)]
    } else {
        Seq::empty()
    }
}

spec fn volume_sections(v: QuadletVolume) -> Seq<UnitSection> {
    described(v).push(UnitSection { heading: "[Volume]"@, entries: volume_entries(v) }).push(
        wanted_section(),
    )
}

proof fn lemma_volume_keys()
    ensures
        is_key("VolumeName="@) && "VolumeName="@.len() == 11 && "VolumeName="@[0] == 'V' && "VolumeName="@[1] == 'o',
        is_key("Driver="@) && "Driver="@.len() == 7 && "Driver="@[0] == 'D' && "Driver="@[1] == 'r',
        is_key("Type="@) && "Type="@.len() == 5 && "Type="@[0] == 'T' && "Type="@[1] == 'y',
        is_key("Device="@) && "Device="@.len() == 7 && "Device="@[0] == 'D' && "Device="@[1] == 'e',
        is_key("Options="@) && "Options="@.len() == 8 && "Options="@[0] == 'O' && "Options="@[1] == 'p',
        is_key("Label="@) && "Label="@.len() == 6 && "Label="@[0] == 'L' && "Label="@[1] == 'a',
        is_key("Description="@) && "Description="@.len() == 12 && "Description="@[0] == 'D' && "Description="@[1] == 'e',
        is_key("WantedBy="@) && "WantedBy="@.len() == 9 && "WantedBy="@[0] == 'W' && "WantedBy="@[1] == 'a',
        is_line("[Volume]"@) && "[Volume]"@.len() == 8 && "[Volume]"@[0] == '[',
        "type="@.len() == 5 && "type="@[0] == 't',
        "device="@.len() == 7 && "device="@[0] == 'd',
        is_line("multi-user.target"@),
        is_line("none"@),
        is_line("bind"@),
        is_line("Volume "@) && "Volume "@.len() == 7,
{
    reveal_strlit("VolumeName=");
    reveal_strlit("Driver=");
    reveal_strlit("Type=");
    reveal_strlit("Device=");
    reveal_strlit("Options=");
    reveal_strlit("Label=");
    reveal_strlit("Description=");
    reveal_strlit("WantedBy=");
    reveal_strlit("[Volume]");
    reveal_strlit("type=");
    reveal_strlit("device=");
    reveal_strlit("multi-user.target");
    reveal_strlit("none");
    reveal_strlit("bind");
    reveal_strlit("Volume ");
}

proof fn lemma_options_text(options: Seq<String>)
    ensures
        entries_text(option_entries(options)) == flat(options, volume_option()),
    decreases options.len(),
{
    if options.len() > 0 {
        let front = options.drop_last();
        lemma_options_text(front);
        let e = option_entry(options.last()@);
        assert(option_entries(options) =~= option_entries(front) + listed(e.0, seq![e.1]));
        lemma_entries_text_sum(option_entries(front), listed(e.0, seq![e.1]));
        lemma_one_text(e.0, e.1);
    } else {
        assert(entries_text(option_entries(options)) =~= Seq::<char>::empty());
    }
}

/// The values of a key among the options.
spec fn option_values(options: Seq<String>, key: Seq<char>) -> Seq<Seq<char>> {
    if key == "Type="@ {
        flat(options, behind_start("type="@))
    } else if key == "Device="@ {
        flat(options, behind_start("device="@))
    } else if key == "Options="@ {
        flat(options, other_options())
    } else {
        Seq::empty()
    }
}

proof fn lemma_picked_options(options: Seq<String>, key: Seq<char>)
    ensures
        picked(option_entries(options), key) == option_values(options, key),
    decreases options.len(),
{
    lemma_volume_keys();
    let e = option_entries(options);
    if options.len() > 0 {
        let front = options.drop_last();
        lemma_picked_options(front, key);
        assert(e.drop_last() =~= option_entries(front));
        let o = options.last()@;
        if "type="@.is_prefix_of(o) && "device="@.is_prefix_of(o) {
            assert("type="@[0] == o[0]);
            assert("device="@[0] == o[0]);
        }
        assert(e.last() == option_entry(o));
        assert(picked(e, key) =~= option_values(options, key));
    } else {
        assert(option_values(options, key) =~= Seq::<Seq<char>>::empty());
    }
}

spec fn asked_of_volume(v: QuadletVolume, key: Seq<char>) -> Seq<Seq<char>> {
    asked("VolumeName="@, seq![v.name@], key) + asked("Driver="@, unless_missing(v.driver@), key)
        + option_values(v.options@, key) + asked("Label="@, views(v.labels@), key)
}

proof fn lemma_picked_volume(v: QuadletVolume, key: Seq<char>)
    ensures
        picked(volume_entries(v), key) == asked_of_volume(v, key),
{
    let a = listed("VolumeName="@, seq![v.name@]);
    let b = listed("Driver="@, unless_missing(v.driver@));
    let c = option_entries(v.options@);
    let d = listed("Label="@, views(v.labels@));
    lemma_picked_list("VolumeName="@, seq![v.name@], key);
    lemma_picked_list("Driver="@, unless_missing(v.driver@), key);
    lemma_picked_options(v.options@, key);
    lemma_picked_list("Label="@, views(v.labels@), key);
    lemma_picked_sum(a, b, key);
    lemma_picked_sum(a + b, c, key);
    lemma_picked_sum(a + b + c, d, key);
}

proof fn lemma_wanted_text()
    ensures
        "\n[Install]\nWantedBy=multi-user.target\n"@ == "\n"@ + section_text(wanted_section()),
{
    lemma_one_text("WantedBy="@, "multi-user.target"@);
    reveal_strlit("\n[Install]\nWantedBy=multi-user.target\n");
    reveal_strlit("\n");
    reveal_strlit("[Install]");
    reveal_strlit("WantedBy=");
    reveal_strlit("multi-user.target");
    assert("\n[Install]\nWantedBy=multi-user.target\n"@ =~= "\n"@ + ("[Install]"@ + "\n"@ + (
    "WantedBy="@ + "multi-user.target"@ + "\n"@)));
}

proof fn lemma_volume_head(v: QuadletVolume)
    ensures
        "[Volume]\nVolumeName="@ + v.name@ + "\n"@ == "[Volume]"@ + "\n"@ + entries_text(
            listed("VolumeName="@, seq![v.name@]),
        ),
        "[Unit]\nDescription=Volume "@ + v.name@ + "\n\n"@ == section_text(
            described_section("Volume "@ + v.name@),
        ) + "\n"@,
{
    lemma_one_text("VolumeName="@, v.name@);
    lemma_one_text("Description="@, "Volume "@ + v.name@);
    assert("[Volume]\nVolumeName="@ =~= "[Volume]"@ + "\n"@ + "VolumeName="@) by {
        reveal_strlit("[Volume]\nVolumeName=");
        reveal_strlit("[Volume]");
        reveal_strlit("\n");
        reveal_strlit("VolumeName=");
    }
    assert("[Volume]"@ + "\n"@ + "VolumeName="@ + v.name@ + "\n"@ =~= "[Volume]"@ + "\n"@ + (
    "VolumeName="@ + v.name@ + "\n"@));
    assert("[Unit]\nDescription=Volume "@ =~= "[Unit]"@ + "\n"@ + "Description="@ + "Volume "@) by {
        reveal_strlit("[Unit]\nDescription=Volume ");
        reveal_strlit("[Unit]");
        reveal_strlit("\n");
        reveal_strlit("Description=");
        reveal_strlit("Volume ");
    }
    assert("\n\n"@ =~= "\n"@ + "\n"@) by {
        reveal_strlit("\n\n");
        reveal_strlit("\n");
    }
    assert("[Unit]"@ + "\n"@ + "Description="@ + "Volume "@ + v.name@ + ("\n"@ + "\n"@) =~= "[Unit]"@
        + "\n"@ + ("Description="@ + ("Volume "@ + v.name@) + "\n"@) + "\n"@);
}

#[verifier::rlimit(60)]
proof fn lemma_volume_sections(v: QuadletVolume)
    ensures
        volume_text(v) == text_of(unit_lines(volume_sections(v))),
{
    let u = given(
        has_type_option(v.options@),
        "[Unit]\nDescription=Volume "@ + v.name@ + "\n\n"@,
    );
    let one = UnitSection { heading: "[Volume]"@, entries: volume_entries(v) };
    let v0 = described(v);
    let none = Seq::<UnitSection>::empty();
    lemma_volume_head(v);
    if v0.len() > 0 {
        assert(v0 =~= none.push(described_section("Volume "@ + v.name@)));
        lemma_push_section(none, described_section("Volume "@ + v.name@));
    }
    lemma_push_section(v0, one);
    lemma_push_section(v0.push(one), wanted_section());
    lemma_wanted_text();
    let h = u + ("[Volume]"@ + "\n"@);
    let e1 = listed("VolumeName="@, seq![v.name@]);
    let t1 = u + "[Volume]\nVolumeName="@ + v.name@ + "\n"@;
    assert(t1 =~= u + ("[Volume]\nVolumeName="@ + v.name@ + "\n"@));
    lemma_regrouped(u, "[Volume]"@ + "\n"@, entries_text(e1));
    let f2 = listed("Driver="@, unless_missing(v.driver@));
    let x2 = entry(v.driver@, "Driver="@, "\n"@);
    if v.driver@.len() > 0 {
        lemma_one_text("Driver="@, v.driver@);
    } else {
        lemma_list_text("Driver="@, Seq::empty());
    }
    lemma_grow(t1, h, e1, f2, x2);
    lemma_options_text(v.options@);
    let x3 = flat(v.options@, volume_option());
    lemma_grow(t1 + x2, h, e1 + f2, option_entries(v.options@), x3);
    lemma_list_text("Label="@, views(v.labels@));
    let f4 = listed("Label="@, views(v.labels@));
    let x4 = wrapped(views(v.labels@), "Label="@, "\n"@);
    lemma_grow(t1 + x2 + x3, h, e1 + f2 + option_entries(v.options@), f4, x4);
    lemma_regrouped(u, "[Volume]"@ + "\n"@, entries_text(volume_entries(v)));
    if v0.len() == 0 {
        assert(Seq::<char>::empty() + section_text(one) =~= section_text(one));
    }
    let t4 = t1 + x2 + x3 + x4;
    assert(t4 == text_of(unit_lines(v0.push(one))));
    lemma_regrouped(t4, "\n"@, section_text(wanted_section()));
}

proof fn lemma_option_lines(options: Seq<String>)
    requires
        are_lines(views(options)),
    ensures
        are_entries(option_entries(options)),
{
    lemma_volume_keys();
    let e = option_entries(options);
    assert forall|i: int| 0 <= i < e.len() implies is_key((#[trigger] e[i]).0) && is_line(
        e[i].1,
    ) by {
        let o = options[i]@;
        assert(is_line(views(options)[i]));
        assert(e[i] == option_entry(o));
        if "type="@.is_prefix_of(o) {
            lemma_rest_is_line(o, 5);
        } else if "device="@.is_prefix_of(o) {
            lemma_rest_is_line(o, 7);
        }
    }
}

/// The end of a line is one.
proof fn lemma_rest_is_line(s: Seq<char>, n: int)
    requires
        is_line(s),
        0 <= n <= s.len(),
    ensures
        is_line(s.skip(n)),
{
    let rest = s.skip(n);
    assert forall|i: int| 0 <= i < rest.len() implies #[trigger] rest[i] != '\n' by {
        assert(rest[i] == s[i + n]);
    }
    if rest.len() > 0 {
        assert(rest.last() == s.last());
    }
}

/// A line behind the start of one is one.
proof fn lemma_described_line(s: Seq<char>)
    requires
        is_line(s),
    ensures
        is_line("Volume "@ + s),
{
    reveal_strlit("Volume ");
    let line = "Volume "@ + s;
    assert forall|i: int| 0 <= i < line.len() implies #[trigger] line[i] != '\n' by {
        if i < 7 {
            assert(line[i] == "Volume "@[i]);
        } else {
            assert(line[i] == s[i - 7]);
        }
    }
    if s.len() > 0 {
        assert(line.last() == s.last());
    } else {
        assert(line.last() == "Volume "@.last());
    }
}

#[verifier::rlimit(60)]
proof fn lemma_volume_says(v: QuadletVolume, section: Seq<char>, key: Seq<char>)
    requires
        has_volume_lines(v),
        is_key(key),
    ensures
        unit_values(volume_text(v), section, key) == if section == "[Volume]"@ {
            asked_of_volume(v, key)
        } else if section == "[Unit]"@ {
            if has_type_option(v.options@) {
                asked("Description="@, seq!["Volume "@ + v.name@], key)
            } else {
                Seq::empty()
            }
        } else if section == "[Install]"@ {
            asked("WantedBy="@, seq!["multi-user.target"@], key)
        } else {
            Seq::empty()
        },
{
    let f = section_values(section, key);
    let one = UnitSection { heading: "[Volume]"@, entries: volume_entries(v) };
    let unit = described_section("Volume "@ + v.name@);
    let v0 = described(v);
    lemma_volume_keys();
    lemma_headings();
    lemma_volume_sections(v);
    lemma_described_line(v.name@);
    lemma_listed_are_entries("Description="@, seq!["Volume "@ + v.name@]);
    lemma_listed_are_entries("WantedBy="@, seq!["multi-user.target"@]);
    lemma_listed_are_entries("VolumeName="@, seq![v.name@]);
    lemma_listed_are_entries("Driver="@, unless_missing(v.driver@));
    lemma_listed_are_entries("Label="@, views(v.labels@));
    lemma_option_lines(v.options@);
    let a = listed("VolumeName="@, seq![v.name@]);
    let b = listed("Driver="@, unless_missing(v.driver@));
    lemma_entries_sum(a, b);
    lemma_entries_sum(a + b, option_entries(v.options@));
    lemma_entries_sum(a + b + option_entries(v.options@), listed("Label="@, views(v.labels@)));
    lemma_unit(volume_sections(v), section, key);
    lemma_picked_volume(v, key);
    lemma_picked_list("Description="@, seq!["Volume "@ + v.name@], key);
    lemma_picked_list("WantedBy="@, seq!["multi-user.target"@], key);
    let none = Seq::<UnitSection>::empty();
    lemma_flat_push(none, unit, section, key);
    assert(flat(none, f) =~= Seq::<Seq<char>>::empty());
    lemma_flat_push(v0, one, section, key);
    lemma_flat_push(v0.push(one), wanted_section(), section, key);
    if v0.len() > 0 {
        assert(v0 =~= none.push(unit));
        assert(flat(v0, f) =~= f(unit));
        assert(flat(volume_sections(v), f) =~= f(unit) + f(one) + f(wanted_section()));
    } else {
        assert(v0 =~= none);
        assert(flat(volume_sections(v), f) =~= f(one) + f(wanted_section()));
    }
    assert("[Volume]"@ != "[Unit]"@);
    assert("[Volume]"@ != "[Install]"@);
    assert("[Unit]"@ != "[Install]"@);
}

/// The unit of a volume has its name, its driver and its labels. Its options are all there, in
/// their order: the type and the device under keys of their own, the others as options. The
/// volume is described where an option names its type, in letters of either case, and is
/// always wanted.
#[verifier::rlimit(60)]
pub proof fn law_volumes_have_their_keys(v: QuadletVolume)
    requires
        has_volume_lines(v),
    ensures
        unit_values(volume_text(v), "[Volume]"@, "VolumeName="@) == seq![v.name@],
        unit_values(volume_text(v), "[Volume]"@, "Driver="@) == unless_missing(v.driver@),
        unit_values(volume_text(v), "[Volume]"@, "Type="@) == flat(
            v.options@,
            behind_start("type="@),
        ),
        unit_values(volume_text(v), "[Volume]"@, "Device="@) == flat(
            v.options@,
            behind_start("device="@),
        ),
        unit_values(volume_text(v), "[Volume]"@, "Options="@) == flat(v.options@, other_options()),
        unit_values(volume_text(v), "[Volume]"@, "Label="@) == views(v.labels@),
        unit_values(volume_text(v), "[Install]"@, "WantedBy="@) == seq!["multi-user.target"@],
        unit_values(volume_text(v), "[Unit]"@, "Description="@) == if exists|i: int|
            0 <= i < v.options@.len() && "type="@.is_prefix_of(
                lowercase((#[trigger] v.options@[i])@),
            ) {
            seq!["Volume "@ + v.name@]
        } else {
            Seq::empty()
        },
{
    lemma_volume_keys();
    lemma_headings();
    lemma_volume_says(v, "[Volume]"@, "VolumeName="@);
    assert(asked_of_volume(v, "VolumeName="@) =~= seq![v.name@]);
    lemma_volume_says(v, "[Volume]"@, "Driver="@);
    assert(asked_of_volume(v, "Driver="@) =~= unless_missing(v.driver@));
    lemma_volume_says(v, "[Volume]"@, "Type="@);
    assert(asked_of_volume(v, "Type="@) =~= flat(v.options@, behind_start("type="@)));
    lemma_volume_says(v, "[Volume]"@, "Device="@);
    assert(asked_of_volume(v, "Device="@) =~= flat(v.options@, behind_start("device="@)));
    lemma_volume_says(v, "[Volume]"@, "Options="@);
    assert(asked_of_volume(v, "Options="@) =~= flat(v.options@, other_options()));
    lemma_volume_says(v, "[Volume]"@, "Label="@);
    assert(asked_of_volume(v, "Label="@) =~= views(v.labels@));
    lemma_volume_says(v, "[Install]"@, "WantedBy="@);
    lemma_volume_says(v, "[Unit]"@, "Description="@);
    assert("[Volume]"@ != "[Unit]"@);
    assert("[Volume]"@ != "[Install]"@);
    assert("[Unit]"@ != "[Install]"@);
}

spec fn bound_entries(name: Seq<char>, host_path: Seq<char>) -> Seq<(Seq<char>, Seq<char>)> {
    listed("VolumeName="@, seq![name]) + listed("Type="@, seq!["none"@]) + listed(
        "Device="@,
        seq![host_path],
    ) + listed("Options="@, seq!["bind"@])
}

spec fn bound_sections(name: Seq<char>, host_path: Seq<char>, text: Seq<char>) -> Seq<
    UnitSection,
> {
    Seq::empty().push(described_section(text)).push(
        UnitSection { heading: "[Volume]"@, entries: bound_entries(name, host_path) },
    ).push(wanted_section())
}

/// What a bound volume is described as.
pub open spec fn bound_description(name: Seq<char>, description: Seq<char>) -> Seq<char> {
    if description.len() > 0 {
        description
    } else {
        "Volume "@ + name
    }
}

#[verifier::rlimit(60)]
proof fn lemma_bound_sections(name: Seq<char>, host_path: Seq<char>, description: Seq<char>)
    ensures
        bind_volume_text(name, host_path, description) == text_of(
            unit_lines(
                bound_sections(name, host_path, bound_description(name, description)),
            ),
        ),
{
    let text = bound_description(name, description);
    let n = "\n"@;
    let one = described_section(text);
    let two = UnitSection { heading: "[Volume]"@, entries: bound_entries(name, host_path) };
    let none = Seq::<UnitSection>::empty();
    lemma_push_section(none, one);
    lemma_push_section(none.push(one), two);
    lemma_push_section(none.push(one).push(two), wanted_section());
    lemma_wanted_text();
    lemma_one_text("Description="@, text);
    lemma_one_text("VolumeName="@, name);
    lemma_one_text("Type="@, "none"@);
    lemma_one_text("Device="@, host_path);
    lemma_one_text("Options="@, "bind"@);
    let a = listed("VolumeName="@, seq![name]);
    let b = listed("Type="@, seq!["none"@]);
    let c = listed("Device="@, seq![host_path]);
    let d = listed("Options="@, seq!["bind"@]);
    lemma_entries_text_sum(a, b);
    lemma_entries_text_sum(a + b, c);
    lemma_entries_text_sum(a + b + c, d);
    let first = "[Unit]"@ + n + "Description="@;
    assert("[Unit]\nDescription="@ =~= first) by {
        reveal_strlit("[Unit]\nDescription=");
        reveal_strlit("[Unit]");
        reveal_strlit("\n");
        reveal_strlit("Description=");
    }
    let second = n + n + "[Volume]"@ + n + "VolumeName="@;
    assert("\n\n[Volume]\nVolumeName="@ =~= second) by {
        reveal_strlit("\n\n[Volume]\nVolumeName=");
        reveal_strlit("[Volume]");
        reveal_strlit("\n");
        reveal_strlit("VolumeName=");
    }
    let third = n + ("Type="@ + "none"@ + n) + "Device="@;
    assert("\nType=none\nDevice="@ =~= third) by {
        reveal_strlit("\nType=none\nDevice=");
        reveal_strlit("\n");
        reveal_strlit("Type=");
        reveal_strlit("none");
        reveal_strlit("Device=");
    }
    let fourth = n + ("Options="@ + "bind"@ + n);
    let wanted = "\n[Install]\nWantedBy=multi-user.target\n"@;
    assert("\nOptions=bind\n\n[Install]\nWantedBy=multi-user.target\n"@ =~= fourth + wanted) by {
        reveal_strlit("\nOptions=bind\n\n[Install]\nWantedBy=multi-user.target\n");
        reveal_strlit("\n[Install]\nWantedBy=multi-user.target\n");
        reveal_strlit("\n");
        reveal_strlit("Options=");
        reveal_strlit("bind");
    }
    let x = "[Unit]"@ + n + ("Description="@ + text + n);
    let y = "[Volume]"@ + n + (("VolumeName="@ + name + n) + ("Type="@ + "none"@ + n) + ("Device="@
        + host_path + n) + ("Options="@ + "bind"@ + n));
    assert(first + text + second + name + third + host_path + (fourth + wanted) =~= x + n + y
        + wanted);
    lemma_regrouped(x + n + y, n, section_text(wanted_section()));
}

/// The unit of a bound volume mounts the path of the host under the volume's name, and has the
/// description that is given, or one of its own.
#[verifier::rlimit(60)]
pub proof fn law_bound_volumes_have_their_keys(
    name: Seq<char>,
    host_path: Seq<char>,
    description: Seq<char>,
)
    requires
        is_line(name),
        is_line(host_path),
        is_line(description),
    ensures
        ({
            let unit = bind_volume_text(name, host_path, description);
            &&& unit_values(unit, "[Volume]"@, "VolumeName="@) == seq![name]
            &&& unit_values(unit, "[Volume]"@, "Type="@) == seq!["none"@]
            &&& unit_values(unit, "[Volume]"@, "Device="@) == seq![host_path]
            &&& unit_values(unit, "[Volume]"@, "Options="@) == seq!["bind"@]
            &&& unit_values(unit, "[Unit]"@, "Description="@) == seq![
                bound_description(name, description),
            ]
            &&& unit_values(unit, "[Install]"@, "WantedBy="@) == seq!["multi-user.target"@]
        }),
{
    lemma_volume_keys();
    lemma_headings();
    lemma_bound_says(name, host_path, description, "[Volume]"@, "VolumeName="@);
    lemma_bound_says(name, host_path, description, "[Volume]"@, "Type="@);
    lemma_bound_says(name, host_path, description, "[Volume]"@, "Device="@);
    lemma_bound_says(name, host_path, description, "[Volume]"@, "Options="@);
    lemma_bound_says(name, host_path, description, "[Unit]"@, "Description="@);
    lemma_bound_says(name, host_path, description, "[Install]"@, "WantedBy="@);
}

spec fn asked_of_bound(name: Seq<char>, host_path: Seq<char>, key: Seq<char>) -> Seq<Seq<char>> {
    asked("VolumeName="@, seq![name], key) + asked("Type="@, seq!["none"@], key) + asked(
        "Device="@,
        seq![host_path],
        key,
    ) + asked("Options="@, seq!["bind"@], key)
}

#[verifier::rlimit(60)]
proof fn lemma_bound_says(
    name: Seq<char>,
    host_path: Seq<char>,
    description: Seq<char>,
    section: Seq<char>,
    key: Seq<char>,
)
    requires
        is_line(name),
        is_line(host_path),
        is_line(description),
        is_key(key),
    ensures
        unit_values(bind_volume_text(name, host_path, description), section, key) =~= if section
            == "[Volume]"@ {
            asked_of_bound(name, host_path, key)
        } else if section == "[Unit]"@ {
            asked("Description="@, seq![bound_description(name, description)], key)
        } else if section == "[Install]"@ {
            asked("WantedBy="@, seq!["multi-user.target"@], key)
        } else {
            Seq::empty()
        },
{
    let text = bound_description(name, description);
    let f = section_values(section, key);
    let one = described_section(text);
    let two = UnitSection { heading: "[Volume]"@, entries: bound_entries(name, host_path) };
    let all = bound_sections(name, host_path, text);
    let none = Seq::<UnitSection>::empty();
    lemma_volume_keys();
    lemma_headings();
    lemma_bound_sections(name, host_path, description);
    lemma_described_line(name);
    let a = listed("VolumeName="@, seq![name]);
    let b = listed("Type="@, seq!["none"@]);
    let c = listed("Device="@, seq![host_path]);
    let d = listed("Options="@, seq!["bind"@]);
    lemma_listed_are_entries("VolumeName="@, seq![name]);
    lemma_listed_are_entries("Type="@, seq!["none"@]);
    lemma_listed_are_entries("Device="@, seq![host_path]);
    lemma_listed_are_entries("Options="@, seq!["bind"@]);
    lemma_listed_are_entries("Description="@, seq![text]);
    lemma_listed_are_entries("WantedBy="@, seq!["multi-user.target"@]);
    lemma_entries_sum(a, b);
    lemma_entries_sum(a + b, c);
    lemma_entries_sum(a + b + c, d);
    lemma_unit(all, section, key);
    lemma_picked_list("VolumeName="@, seq![name], key);
    lemma_picked_list("Type="@, seq!["none"@], key);
    lemma_picked_list("Device="@, seq![host_path], key);
    lemma_picked_list("Options="@, seq!["bind"@], key);
    lemma_picked_list("Description="@, seq![text], key);
    lemma_picked_list("WantedBy="@, seq!["multi-user.target"@], key);
    lemma_picked_sum(a, b, key);
    lemma_picked_sum(a + b, c, key);
    lemma_picked_sum(a + b + c, d, key);
    lemma_flat_push(none, one, section, key);
    lemma_flat_push(none.push(one), two, section, key);
    lemma_flat_push(none.push(one).push(two), wanted_section(), section, key);
    assert(flat(none, f) =~= Seq::<Seq<char>>::empty());
    assert(flat(all, f) =~= f(one) + f(two) + f(wanted_section()));
    assert("[Volume]"@ != "[Unit]"@);
    assert("[Volume]"@ != "[Install]"@);
    assert("[Unit]"@ != "[Install]"@);
}

} // verus!
