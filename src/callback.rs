use crate::layout::style::string_views;
use vstd::prelude::*;

verus! {

/// The argument that stands for the live query.
pub const QUERY_VAR_NAME: &'static str = "$QUERY";

/// An external command that supplies the corpus for a query.
pub struct Callback {
    pub program: String,
    pub args: Vec<String>,
}

/// An argument as it is passed for `query`.
pub open spec fn substituted(arg: Seq<char>, query: Seq<char>) -> Seq<char> {
    if arg == QUERY_VAR_NAME@ {
        query
    } else {
        arg
    }
}

impl Callback {
    /// The command whose program is the first word of `cli_args` and whose
    /// arguments are the rest.
    pub fn new(cli_args: Vec<String>) -> (r: Self)
        requires
            cli_args@.len() >= 1,
        ensures
            r.program == cli_args@[0],
            r.args@ == cli_args@.drop_first(),
    {
        let mut args: Vec<String> = Vec::new();
        let mut i: usize = 1;
        while i < cli_args.len()
            invariant
                1 <= i <= cli_args@.len(),
                args@ == cli_args@.subrange(1, i as int),
            decreases cli_args@.len() - i,
        {
            args.push(cli_args[i].clone());
            proof {
                assert(cli_args@.subrange(1, i as int + 1) == cli_args@.subrange(1, i as int).push(cli_args@[i as int]));
            }
            i = i + 1;
        }
        Self { program: cli_args[0].clone(), args }
    }

    /// The arguments to run the command with for `query`: each argument that
    /// is exactly the query marker is replaced by the query.
    pub fn args_for(&self, query: &str) -> (r: Vec<String>)
        ensures
            string_views(r@) == Seq::new(self.args@.len(), |i: int| substituted(self.args@[i]@, query@)),
    {
        let mut r: Vec<String> = Vec::new();
        let mut i: usize = 0;
        while i < self.args.len()
            invariant
                i <= self.args@.len(),
                r@.len() == i,
                forall|k: int| 0 <= k < i ==> #[trigger] r@[k]@ == substituted(self.args@[k]@, query@),
            decreases self.args@.len() - i,
        {
            let a = &self.args[i];
            if crate::config::same_text(a.as_str(), QUERY_VAR_NAME) {
                r.push(query.to_owned());
            } else {
                r.push(a.clone());
            }
            i = i + 1;
        }
        assert(string_views(r@) =~= Seq::new(self.args@.len(), |i: int| substituted(self.args@[i]@, query@)));
        r
    }
}

} // verus!
