//! The training scripts: which Python interpreter runs them and which
//! directory holds them.
use vstd::prelude::*;
use crate::text::owned;

verus! {

/// The interpreter for the training scripts: the project's virtual
/// environment (`.venv/Scripts/python.exe` under the training directory)
/// when it exists, else `python` from the path.
pub fn training_python(venv_python: &str, venv_exists: bool) -> (r: String)
    ensures
        r@ == if venv_exists {
            venv_python@
        } else {
            "python"@
        },
{
    if venv_exists {
        owned(venv_python)
    } else {
        owned("python")
    }
}

/// The first candidate that exists, in the order given.
pub open spec fn first_existing(candidates: Seq<(String, bool)>) -> Option<Seq<char>>
    decreases candidates.len(),
{
    if candidates.len() == 0 {
        None
    } else if candidates[0].1 {
        Some(candidates[0].0@)
    } else {
        first_existing(candidates.drop_first())
    }
}

/// The training directory: the first candidate (`training`, then
/// `desktop-app/training`, for each ancestor of the working directory,
/// nearest first) whose download script exists.
pub fn locate_training_dir(candidates: &[(String, bool)]) -> (r: Result<String, String>)
    ensures
        match first_existing(candidates@) {
            Some(d) => r matches Ok(s) && s@ == d,
            None => r matches Err(e) && e@ == "未找到 desktop-app/training 目录"@,
        },
{
    let mut i: usize = 0;
    assert(candidates@.skip(0) =~= candidates@);
    while i < candidates.len()
        invariant
            i <= candidates@.len(),
            first_existing(candidates@) == first_existing(candidates@.skip(i as int)),
        decreases candidates@.len() - i,
    {
        let ghost rest = candidates@.skip(i as int);
        assert(rest[0] == candidates@[i as int]);
        assert(rest.drop_first() =~= candidates@.skip(i + 1));
        if candidates[i].1 {
            return Ok(candidates[i].0.clone());
        }
        i = i + 1;
    }
    Err(owned("未找到 desktop-app/training 目录"))
}

} // verus!
