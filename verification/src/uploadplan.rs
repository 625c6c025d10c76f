//! Planning a recursive upload: turning a local directory tree into the
//! ordered actions a transfer performs against the store — a zero-byte
//! directory marker per non-empty level, then the level's files, then its
//! subdirectories, depth first.

use vstd::prelude::*;
use vstd::string::StrSliceExecFns;

use crate::keypath::dir_marker_key;
use crate::keypath::join_path_segment;
use crate::keypath::join_segment_spec;
use crate::keypath::upload_prefix;
use crate::keypath::upload_prefix_spec;
use crate::store::MemStore;
use crate::store::store_put;

verus! {

/// A local directory tree, as the filesystem walk found it: the entry
/// names of files, and the subdirectories, each in listing order.
pub struct LocalTree {
    pub name: String,
    pub files: Vec<String>,
    pub subdirs: Vec<LocalTree>,
}

/// One planned transfer action.
pub enum UploadAction {
    /// Write the zero-byte marker object at `key`.
    PutMarker { key: String },
    /// Upload the local file at `local` (relative to the walked root) to
    /// the object `key`.
    UploadFile { local: String, key: String },
}

/// The spec-level image of an action.
pub enum ActionV {
    Marker { key: Seq<char> },
    Upload { local: Seq<char>, key: Seq<char> },
}

impl View for UploadAction {
    type V = ActionV;

    open spec fn view(&self) -> ActionV {
        match self {
            UploadAction::PutMarker { key } => ActionV::Marker { key: key@ },
            UploadAction::UploadFile { local, key } => ActionV::Upload {
                local: local@,
                key: key@,
            },
        }
    }
}

/// The key an action writes to.
pub open spec fn action_key(a: ActionV) -> Seq<char> {
    match a {
        ActionV::Marker { key } => key,
        ActionV::Upload { local: _, key } => key,
    }
}

/// The upload actions for the files of one directory level.
pub open spec fn files_plan(files: Seq<String>, prefix: Seq<char>, local: Seq<char>) -> Seq<
    ActionV,
>
    decreases files.len(),
{
    if files.len() == 0 {
        Seq::empty()
    } else {
        seq![
            ActionV::Upload {
                local: join_segment_spec(local, files[0]@),
                key: join_segment_spec(prefix, files[0]@),
            },
        ] + files_plan(files.drop_first(), prefix, local)
    }
}

/// The whole plan for a directory: its marker when the level's prefix is
/// non-empty, then its files, then each subdirectory in turn.
pub open spec fn upload_plan_spec(
    tree: LocalTree,
    base: Option<Seq<char>>,
    rel: Seq<char>,
    local: Seq<char>,
) -> Seq<ActionV>
    decreases tree, 1int, 0int,
{
    let prefix = upload_prefix_spec(base, rel);
    let marker: Seq<ActionV> = if prefix.len() > 0 {
        seq![ActionV::Marker { key: prefix + seq!['/'] }]
    } else {
        Seq::empty()
    };
    marker + files_plan(tree.files@, prefix, local) + subdirs_plan(
        tree.subdirs@,
        base,
        rel,
        local,
        0,
    )
}

/// The plans of the subdirectories from index `i` on, concatenated.
pub open spec fn subdirs_plan(
    subdirs: Seq<LocalTree>,
    base: Option<Seq<char>>,
    rel: Seq<char>,
    local: Seq<char>,
    i: int,
) -> Seq<ActionV>
    decreases subdirs, 0int, subdirs.len() - i,
{
    if 0 <= i < subdirs.len() {
        upload_plan_spec(
            subdirs[i],
            base,
            join_segment_spec(rel, subdirs[i].name@),
            join_segment_spec(local, subdirs[i].name@),
        ) + subdirs_plan(subdirs, base, rel, local, i + 1)
    } else {
        Seq::empty()
    }
}

/// Appends the plan for one directory level (and everything below it) to
/// `out`, exactly as `upload_plan_spec` states.
pub fn plan_upload_dir(
    tree: &LocalTree,
    base: &Option<String>,
    rel: &str,
    local: &str,
    out: &mut Vec<UploadAction>,
)
    ensures
        final (out)@.map_values(|a: UploadAction| a@) == old(out)@.map_values(
            |a: UploadAction| a@,
        ) + upload_plan_spec(*tree, base.deep_view(), rel@, local@),
    decreases *tree,
{
    let ghost plan = upload_plan_spec(*tree, base.deep_view(), rel@, local@);
    let ghost view_of = |a: UploadAction| a@;
    let prefix = upload_prefix(base, rel);
    let ghost marker: Seq<ActionV> = if prefix@.len() > 0 {
        seq![ActionV::Marker { key: prefix@ + seq!['/'] }]
    } else {
        Seq::<ActionV>::empty()
    };
    if prefix.unicode_len() > 0 {
        let key = dir_marker_key(prefix.as_str());
        let ghost before = out@;
        out.push(UploadAction::PutMarker { key });
        proof {
            assert(out@.map_values(view_of) =~= before.map_values(view_of) + marker);
        }
    } else {
        proof {
            assert(out@.map_values(view_of) =~= out@.map_values(view_of) + marker);
        }
    }
    // The files of this level.
    let nf = tree.files.len();
    let mut i: usize = 0;
    proof {
        assert(tree.files@.skip(0) =~= tree.files@);
        assert(out@.map_values(view_of) + files_plan(tree.files@.skip(0), prefix@, local@)
            =~= (old(out)@.map_values(view_of) + marker) + files_plan(
            tree.files@,
            prefix@,
            local@,
        ));
    }
    while i < nf
        invariant
            i <= nf,
            nf == tree.files@.len(),
            view_of == (|a: UploadAction| a@),
            prefix@ == upload_prefix_spec(base.deep_view(), rel@),
            out@.map_values(view_of) + files_plan(tree.files@.skip(i as int), prefix@, local@)
                == (old(out)@.map_values(view_of) + marker) + files_plan(
                tree.files@,
                prefix@,
                local@,
            ),
        decreases nf - i,
    {
        let f = tree.files[i].as_str();
        let local_path = join_path_segment(local, f);
        let key = join_path_segment(prefix.as_str(), f);
        let ghost before = out@;
        let ghost remaining = tree.files@.skip(i as int);
        out.push(UploadAction::UploadFile { local: local_path, key });
        proof {
            let act = ActionV::Upload {
                local: join_segment_spec(local@, tree.files@[i as int]@),
                key: join_segment_spec(prefix@, tree.files@[i as int]@),
            };
            assert(remaining[0] == tree.files@[i as int]);
            assert(remaining.drop_first() =~= tree.files@.skip(i + 1));
            assert(files_plan(remaining, prefix@, local@) == seq![act] + files_plan(
                tree.files@.skip(i + 1),
                prefix@,
                local@,
            ));
            assert(out@.map_values(view_of) =~= before.map_values(view_of) + seq![act]);
            assert(out@.map_values(view_of) + files_plan(tree.files@.skip(i + 1), prefix@, local@)
                =~= before.map_values(view_of) + files_plan(remaining, prefix@, local@));
        }
        i += 1;
    }
    proof {
        assert(tree.files@.skip(nf as int) =~= Seq::<String>::empty());
        assert(files_plan(tree.files@.skip(nf as int), prefix@, local@) =~= Seq::<
            ActionV,
        >::empty());
        assert(out@.map_values(view_of) =~= (old(out)@.map_values(view_of) + marker) + files_plan(
            tree.files@,
            prefix@,
            local@,
        ));
    }
    // The subdirectories, depth first.
    let ghost after_files = out@.map_values(view_of);
    let ns = tree.subdirs.len();
    let mut j: usize = 0;
    while j < ns
        invariant
            j <= ns,
            ns == tree.subdirs@.len(),
            view_of == (|a: UploadAction| a@),
            prefix@ == upload_prefix_spec(base.deep_view(), rel@),
            after_files == (old(out)@.map_values(view_of) + marker) + files_plan(
                tree.files@,
                prefix@,
                local@,
            ),
            out@.map_values(view_of) + subdirs_plan(
                tree.subdirs@,
                base.deep_view(),
                rel@,
                local@,
                j as int,
            ) == after_files + subdirs_plan(tree.subdirs@, base.deep_view(), rel@, local@, 0),
        decreases ns - j,
    {
        let sub = &tree.subdirs[j];
        let rel2 = join_path_segment(rel, sub.name.as_str());
        let local2 = join_path_segment(local, sub.name.as_str());
        let ghost before = out@.map_values(view_of);
        proof {
            assert(decreases_to!(*tree => tree.subdirs));
            assert(decreases_to!(tree.subdirs => tree.subdirs@[j as int]));
        }
        plan_upload_dir(sub, base, rel2.as_str(), local2.as_str(), out);
        proof {
            let sp = upload_plan_spec(
                tree.subdirs@[j as int],
                base.deep_view(),
                join_segment_spec(rel@, tree.subdirs@[j as int].name@),
                join_segment_spec(local@, tree.subdirs@[j as int].name@),
            );
            assert(subdirs_plan(tree.subdirs@, base.deep_view(), rel@, local@, j as int) == sp
                + subdirs_plan(tree.subdirs@, base.deep_view(), rel@, local@, j + 1));
            assert((before + sp) + subdirs_plan(
                tree.subdirs@,
                base.deep_view(),
                rel@,
                local@,
                j + 1,
            ) =~= before + subdirs_plan(tree.subdirs@, base.deep_view(), rel@, local@, j as int));
        }
        j += 1;
    }
    proof {
        assert(subdirs_plan(tree.subdirs@, base.deep_view(), rel@, local@, ns as int) =~= Seq::<
            ActionV,
        >::empty());
        assert(out@.map_values(view_of) =~= out@.map_values(view_of) + Seq::<ActionV>::empty());
        assert((old(out)@.map_values(view_of) + marker) + files_plan(tree.files@, prefix@, local@)
            + subdirs_plan(tree.subdirs@, base.deep_view(), rel@, local@, 0) =~= old(
            out,
        )@.map_values(view_of) + plan);
    }
}

/// The store after the planned keys are written in order. Bodies are not
/// modelled: every planned key is written with an empty body, as the
/// marker objects are.
pub open spec fn apply_keys(m: Seq<(Seq<char>, Seq<u8>)>, acts: Seq<ActionV>) -> Seq<
    (Seq<char>, Seq<u8>),
>
    decreases acts.len(),
{
    if acts.len() == 0 {
        m
    } else {
        apply_keys(store_put(m, action_key(acts[0]), Seq::empty()), acts.drop_first())
    }
}

/// Writes every planned key to the store, in plan order.
pub fn apply_upload_actions(store: &mut MemStore, actions: &Vec<UploadAction>)
    requires
        old(store).wf(),
    ensures
        final (store).wf(),
        final (store)@ == apply_keys(old(store)@, actions@.map_values(|a: UploadAction| a@)),
{
    let ghost view_of = |a: UploadAction| a@;
    let n = actions.len();
    let mut i: usize = 0;
    proof {
        assert(actions@.map_values(view_of).skip(0) =~= actions@.map_values(view_of));
    }
    while i < n
        invariant
            i <= n,
            n == actions@.len(),
            view_of == (|a: UploadAction| a@),
            store.wf(),
            apply_keys(store@, actions@.map_values(view_of).skip(i as int)) == apply_keys(
                old(store)@,
                actions@.map_values(view_of),
            ),
        decreases n - i,
    {
        let ghost acts = actions@.map_values(view_of).skip(i as int);
        let ghost prev = store@;
        proof {
            assert(acts[0] == actions@[i as int]@);
            assert(acts.drop_first() =~= actions@.map_values(view_of).skip(i + 1));
        }
        match &actions[i] {
            UploadAction::PutMarker { key } => {
                proof {
                    assert(key@ == action_key(acts[0]));
                }
                let body: Vec<u8> = Vec::new();
                store.put(key.as_str(), body);
            },
            UploadAction::UploadFile { local: _, key } => {
                proof {
                    assert(key@ == action_key(acts[0]));
                }
                let body: Vec<u8> = Vec::new();
                store.put(key.as_str(), body);
            },
        }
        proof {
            assert(store@ == store_put(prev, action_key(acts[0]), Seq::empty()));
            assert(apply_keys(prev, acts) == apply_keys(store@, acts.drop_first()));
        }
        i += 1;
    }
    proof {
        assert(actions@.map_values(view_of).skip(n as int) =~= Seq::<ActionV>::empty());
    }
}

} // verus!
