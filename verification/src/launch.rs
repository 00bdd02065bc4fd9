//! The paths the reader is started with: the command line arguments that are
//! not options, read once, then the paths the system asks it to open.
use vstd::prelude::*;
use crate::text::chars_of;
use crate::file::book::string_views;
use crate::file::path::opt_view;

verus! {

/// An argument is an option when it starts with `-`.
pub open spec fn is_option(arg: Seq<char>) -> bool {
    arg.len() > 0 && arg[0] == '-'
}

/// The arguments that are not options, in order.
pub open spec fn non_options(args: Seq<Seq<char>>) -> Seq<Seq<char>>
    decreases args.len(),
{
    if args.len() == 0 {
        Seq::empty()
    } else {
        let prev = non_options(args.drop_last());
        if is_option(args.last()) {
            prev
        } else {
            prev.push(args.last())
        }
    }
}

/// The paths named on a command line: the arguments after the program's own
/// name that are not options.
pub open spec fn launch_paths(args: Seq<Seq<char>>) -> Seq<Seq<char>> {
    if args.len() == 0 {
        Seq::empty()
    } else {
        non_options(args.drop_first())
    }
}

/// The first of some paths.
pub open spec fn first_path(paths: Seq<Seq<char>>) -> Option<Seq<char>> {
    if paths.len() > 0 {
        Some(paths[0])
    } else {
        None
    }
}

/// Whether an argument is an option.
fn option_arg(arg: &str) -> (res: bool)
    ensures
        res == is_option(arg@),
{
    let chars = chars_of(arg);
    chars.len() > 0 && chars[0] == '-'
}

/// The paths named on the command line `args` (the program's name first).
pub fn argv_paths(args: &Vec<String>) -> (res: Vec<String>)
    ensures
        string_views(res@) == launch_paths(string_views(args@)),
{
    let mut paths: Vec<String> = Vec::new();
    let n = args.len();
    if n == 0 {
        return paths;
    }
    let ghost rest = string_views(args@).drop_first();
    for k in 1..n
        invariant
            n == args@.len(),
            n > 0,
            rest == string_views(args@).drop_first(),
            string_views(paths@) == non_options(rest.take(k - 1)),
    {
        proof {
            assert(rest.take(k as int).drop_last() =~= rest.take(k - 1));
            assert(rest.take(k as int).last() == args@[k as int]@);
        }
        if !option_arg(args[k].as_str()) {
            let ghost before = paths@;
            let copy = args[k].clone();
            paths.push(copy);
            proof {
                assert(string_views(paths@) =~= string_views(before).push(args@[k as int]@));
            }
        }
    }
    proof {
        assert(rest.take(n - 1) =~= rest);
    }
    paths
}

/// The path to open on launch or when the system asks: the first path of the
/// command line when it has not been read yet, else the first of the paths
/// the system asked to open. `argv_read` records that the command line has
/// been read: it is read once, on the first call.
pub fn take_path(argv_read: &mut bool, args: &Vec<String>, opened: &Vec<String>) -> (res: Option<String>)
    ensures
        *final(argv_read),
        opt_view(res) == first_path(
            (if *old(argv_read) {
                Seq::<Seq<char>>::empty()
            } else {
                launch_paths(string_views(args@))
            }) + string_views(opened@),
        ),
{
    let taken = *argv_read;
    *argv_read = true;
    if !taken {
        let paths = argv_paths(args);
        if paths.len() > 0 {
            return Some(paths[0].clone());
        }
    }
    if opened.len() > 0 {
        return Some(opened[0].clone());
    }
    None
}

} // verus!
