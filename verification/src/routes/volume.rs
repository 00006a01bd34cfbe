//! Volumes: which of them get units.

use crate::db::DbVolume;
use crate::generators::quadlet::{bind_volume_text, generate_bind_volume_unit};
use crate::generators::quadlet_playbook::{build_volume_ansible_playbook, volume_playbook};
use crate::lines::{flat, lemma_flat_take, lemma_views_push};
use crate::text::{has_text, holds_text, views};
use vstd::prelude::*;
use vstd::string::*;

verus! {

/// A request for the units of volumes; of all volumes where it names none.
#[derive(Debug, Clone)]
pub struct VolumeGenerateRequest {
    pub volume_names: Vec<String>,
}

/// The units and the playbook that deploys them.
#[derive(Debug, Clone)]
pub struct VolumeResult {
    pub files: Vec<(String, String)>,
    pub ansible_playbook: String,
}

/// Whether a volume gets a unit: it is asked for, and Pacemaker does not manage it.
pub open spec fn is_selected(v: DbVolume, names: Seq<String>) -> bool {
    v.drbd_resource@.len() == 0 && (names.len() == 0 || has_text(names, v.name@))
}

/// The unit file of a volume, if it gets one.
pub open spec fn selected_file(names: Seq<String>) -> spec_fn(DbVolume) -> Seq<
    (Seq<char>, Seq<char>),
> {
    |v: DbVolume|
        if is_selected(v, names) {
            seq![(v.name@ + ".volume"@, bind_volume_text(v.name@, v.host_path@, v.description@))]
        } else {
            Seq::empty()
        }
}

/// The unit files of the volumes that are asked for.
pub fn volume_files(volumes: &Vec<DbVolume>, names: &Vec<String>) -> (r: Vec<(String, String)>)
    ensures
        views(r@) == flat(volumes@, selected_file(names@)),
{
    let mut out: Vec<(String, String)> = Vec::new();
    let mut i: usize = 0;
    assert(views(out@) =~= Seq::<(Seq<char>, Seq<char>)>::empty());
    while i < volumes.len()
        invariant
            i <= volumes.len(),
            views(out@) == flat(volumes@.take(i as int), selected_file(names@)),
        decreases volumes.len() - i,
    {
        let ghost seen = views(out@);
        proof {
            lemma_flat_take(volumes@, selected_file(names@), i as int);
            assert(seen + Seq::<(Seq<char>, Seq<char>)>::empty() =~= seen);
        }
        let v = &volumes[i];
        if v.drbd_resource.as_str().unicode_len() == 0 && (names.len() == 0 || holds_text(
            names,
            v.name.as_str(),
        )) {
            let mut filename = v.name.clone();
            filename.push_str(".volume");
            let content = generate_bind_volume_unit(
                v.name.as_str(),
                v.host_path.as_str(),
                v.description.as_str(),
            );
            let file = (filename, content);
            proof {
                lemma_views_push(out@, file);
            }
            out.push(file);
            assert(views(out@) =~= seen + seq![file@]);
        }
        i += 1;
    }
    assert(volumes@.take(i as int) =~= volumes@);
    out
}

/// The units of the volumes that are asked for and the playbook that deploys them; nothing
/// where no volume gets a unit.
pub fn volume_result(volumes: &Vec<DbVolume>, request: &VolumeGenerateRequest) -> (r: Option<
    VolumeResult,
>)
    ensures
        r is Some <==> flat(volumes@, selected_file(request.volume_names@)).len() > 0,
        r matches Some(v) ==> {
            &&& views(v.files@) == flat(volumes@, selected_file(request.volume_names@))
            &&& v.ansible_playbook@ == volume_playbook(v.files@)
        },
{
    let files = volume_files(volumes, &request.volume_names);
    assert(views(files@).len() == files@.len());
    if files.len() == 0 {
        return None;
    }
    let ansible_playbook = build_volume_ansible_playbook(&files);
    Some(VolumeResult { files, ansible_playbook })
}

/// Every unit file belongs to a volume that was asked for and stands on no DRBD resource.
pub proof fn law_units_belong_to_free_volumes(volumes: Seq<DbVolume>, names: Seq<String>)
    ensures
        forall|i: int|
            0 <= i < flat(volumes, selected_file(names)).len() ==> exists|k: int|
                0 <= k < volumes.len() && is_selected(#[trigger] volumes[k], names) && (
                #[trigger] flat(volumes, selected_file(names))[i]).0 == volumes[k].name@
                    + ".volume"@,
    decreases volumes.len(),
{
    let files = flat(volumes, selected_file(names));
    if volumes.len() > 0 {
        let front = volumes.drop_last();
        law_units_belong_to_free_volumes(front, names);
        let seen = flat(front, selected_file(names));
        assert forall|i: int| 0 <= i < files.len() implies exists|k: int|
            0 <= k < volumes.len() && is_selected(#[trigger] volumes[k], names) && (
            #[trigger] files[i]).0 == volumes[k].name@ + ".volume"@ by {
            if i < seen.len() {
                assert(files[i] == seen[i]);
                let k = choose|k: int|
                    0 <= k < front.len() && is_selected(#[trigger] front[k], names) && seen[i].0
                        == front[k].name@ + ".volume"@;
                assert(front[k] == volumes[k]);
            } else {
                let k = volumes.len() - 1;
                assert(is_selected(volumes[k], names));
            }
        }
    }
}

} // verus!
