//! What `cp` and `mv` share: where each source goes.
use vstd::prelude::*;
use crate::paths::{file_name, join, path_file_name, path_join};

verus! {

/// One source of a copy or move: where it goes, or why it cannot.
#[derive(Debug, PartialEq, Eq)]
pub enum Step {
    /// Copy or move `from` to `to`.
    Transfer(String, String),
    /// The source is refused with this message.
    Invalid(String),
}

/// A `Step` with its strings as character sequences.
pub enum StepView {
    Transfer(Seq<char>, Seq<char>),
    Invalid(Seq<char>),
}

impl View for Step {
    type V = StepView;

    open spec fn view(&self) -> StepView {
        match self {
            Step::Transfer(a, b) => StepView::Transfer(a@, b@),
            Step::Invalid(m) => StepView::Invalid(m@),
        }
    }
}

/// The message when several sources go to something that is not a directory.
pub open spec fn not_a_directory_msg(cmd: Seq<char>, dest: Seq<char>) -> Seq<char> {
    cmd + ": target '"@ + dest + "' is not a directory"@
}

/// The message for a source that has no last component.
pub open spec fn invalid_source_msg(cmd: Seq<char>, src: Seq<char>) -> Seq<char> {
    cmd + ": invalid source '"@ + src + "'"@
}

/// Where one source goes.
pub open spec fn step_for(cmd: Seq<char>, src: Seq<char>, dest: Seq<char>, dest_is_dir: bool) -> StepView {
    if dest_is_dir {
        match file_name(src) {
            Some(n) => StepView::Transfer(src, join(dest, n)),
            None => StepView::Invalid(invalid_source_msg(cmd, src)),
        }
    } else {
        StepView::Transfer(src, dest)
    }
}

/// The steps for a list of sources, or the error when several sources are
/// given and the destination is not a directory.
pub open spec fn steps_for(cmd: Seq<char>, sources: Seq<String>, dest: Seq<char>, dest_is_dir: bool) -> Result<Seq<StepView>, Seq<char>> {
    if sources.len() > 1 && !dest_is_dir {
        Err(not_a_directory_msg(cmd, dest))
    } else {
        Ok(sources.map_values(|s: String| step_for(cmd, s@, dest, dest_is_dir)))
    }
}

/// The views of a list of steps.
pub open spec fn steps_view(v: Seq<Step>) -> Seq<StepView> {
    v.map_values(|s: Step| s@)
}

fn step_exec(cmd: &str, src: &String, dest: &String, dest_is_dir: bool) -> (res: Step)
    ensures
        res@ == step_for(cmd@, src@, dest@, dest_is_dir),
{
    if dest_is_dir {
        match path_file_name(src.as_str()) {
            Some(n) => Step::Transfer(src.clone(), path_join(dest.as_str(), n.as_str())),
            None => {
                let mut m = String::from_str(cmd);
                m.append(": invalid source '");
                m.append(src.as_str());
                m.append("'");
                Step::Invalid(m)
            },
        }
    } else {
        Step::Transfer(src.clone(), dest.clone())
    }
}

/// Plans where each source goes, given whether the destination is a
/// directory.
pub fn plan_steps(cmd: &str, sources: &Vec<String>, dest: &String, dest_is_dir: bool) -> (res: Result<Vec<Step>, String>)
    ensures
        match res {
            Ok(v) => steps_for(cmd@, sources@, dest@, dest_is_dir) == Ok::<Seq<StepView>, Seq<char>>(steps_view(v@)),
            Err(m) => steps_for(cmd@, sources@, dest@, dest_is_dir) == Err::<Seq<StepView>, Seq<char>>(m@),
        },
{
    if sources.len() > 1 && !dest_is_dir {
        let mut m = String::from_str(cmd);
        m.append(": target '");
        m.append(dest.as_str());
        m.append("' is not a directory");
        return Err(m);
    }
    let mut out: Vec<Step> = Vec::new();
    let mut i: usize = 0;
    while i < sources.len()
        invariant
            i <= sources.len(),
            out.len() == i,
            forall|k: int| 0 <= k < i ==> #[trigger] out@[k]@ == step_for(cmd@, sources@[k]@, dest@, dest_is_dir),
        decreases sources.len() - i,
    {
        let st = step_exec(cmd, &sources[i], dest, dest_is_dir);
        out.push(st);
        i = i + 1;
    }
    assert(steps_view(out@) =~= sources@.map_values(|s: String| step_for(cmd@, s@, dest@, dest_is_dir)));
    Ok(out)
}

/// Law: into a directory, each source goes under its own last component;
/// onto anything else, a single source goes to the destination as given,
/// and several sources are refused.
pub proof fn law_transfer_targets(cmd: Seq<char>, dir: Seq<char>, name: Seq<char>, dest: Seq<char>, sources: Seq<String>)
    requires
        crate::paths::is_plain_component(name),
    ensures
        step_for(cmd, join(dir, name), dest, true) == StepView::Transfer(join(dir, name), join(dest, name)),
        step_for(cmd, join(dir, name), dest, false) == StepView::Transfer(join(dir, name), dest),
        sources.len() > 1 ==> steps_for(cmd, sources, dest, false) is Err,
        steps_for(cmd, sources, dest, true) matches Ok(v) ==> v.len() == sources.len(),
{
    crate::paths::law_file_name_of_join(dir, name);
}

} // verus!
