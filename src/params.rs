//! Command-line parameters: leading `-key=value` settings and `-switch` flags,
//! followed by one or more input paths.
use vstd::prelude::*;
use vstd::string::StrSliceExecFns;

verus! {

/// The upper-case form of a text, as `str::to_uppercase` gives it.
pub uninterp spec fn upper_of(s: Seq<char>) -> Seq<char>;

/// Relies on `str::to_uppercase`: the result depends on the characters alone,
/// and, as each character maps to one or more characters, it is empty exactly
/// when the input is.
#[verifier::external_body]
fn uppercase(s: &str) -> (r: String)
    ensures
        r@ == upper_of(s@),
        (r@.len() == 0) == (s@.len() == 0),
{
    s.to_uppercase()
}

/// The parameters of one command.
#[derive(Debug)]
pub struct Params {
    /// `-key=value` settings in order of appearance; a later setting of a key
    /// overrides an earlier one.
    pub confs: Vec<(String, String)>,
    /// Upper-cased `-switch` names, each once, in order of first appearance.
    pub switchs: Vec<String>,
    /// The input paths.
    pub input_paths: Vec<String>,
}

/// The settings as a map: each key with the value it was given last.
pub open spec fn conf_map(c: Seq<(Seq<char>, Seq<char>)>) -> Map<Seq<char>, Seq<char>>
    decreases c.len(),
{
    if c.len() == 0 {
        Map::empty()
    } else {
        conf_map(c.drop_last()).insert(c.last().0, c.last().1)
    }
}

impl Params {
    /// The settings as a map: a later setting of a key overrides an earlier one.
    pub open spec fn conf_view(&self) -> Map<Seq<char>, Seq<char>> {
        conf_map(confs_view(self.confs@))
    }

    /// The switch names as a set.
    pub open spec fn switch_view(&self) -> Set<Seq<char>> {
        texts(self.switchs@).to_set()
    }

    /// Parameters with no setting, switch or path.
    pub fn new() -> (r: Params)
        ensures
            r.confs@.len() == 0,
            r.switchs@.len() == 0,
            r.input_paths@.len() == 0,
    {
        Params { confs: Vec::new(), switchs: Vec::new(), input_paths: Vec::new() }
    }
}

/// Why the parameters were refused.
#[derive(Debug, PartialEq, Eq)]
pub enum ParamsError {
    /// A `-key=` setting without a value; holds the whole argument.
    LackValue(String),
    /// No input path followed the options.
    LackInputPath,
}

/// Settings as plain texts.
pub open spec fn confs_view(v: Seq<(String, String)>) -> Seq<(Seq<char>, Seq<char>)> {
    v.map_values(|p: (String, String)| (p.0@, p.1@))
}

/// Texts of a sequence of strings.
pub open spec fn texts(v: Seq<String>) -> Seq<Seq<char>> {
    v.map_values(|s: String| s@)
}

/// An argument that starts with `-`.
pub open spec fn is_option(a: Seq<char>) -> bool {
    a.len() > 0 && a[0] == '-'
}

/// The position of the first `=` in `a` at or after `i`.
pub open spec fn eq_from(a: Seq<char>, i: int) -> Option<int>
    decreases a.len() - i,
{
    if i < 0 || i >= a.len() {
        None
    } else if a[i] == '=' {
        Some(i)
    } else {
        eq_from(a, i + 1)
    }
}

/// A setting whose `=` is its last character.
pub open spec fn lacks_value(a: Seq<char>) -> bool {
    eq_from(a, 0) is Some && eq_from(a, 0)->0 + 1 == a.len()
}

/// `n` arguments lead as options and the next one, if any, is not an option.
pub open spec fn option_run(a: Seq<Seq<char>>, n: int) -> bool {
    &&& 0 <= n <= a.len()
    &&& forall|k: int| 0 <= k < n ==> is_option(#[trigger] a[k])
    &&& (n == a.len() || !is_option(a[n]))
}

/// The first of the first `n` arguments that lacks a value.
pub open spec fn first_lacking(a: Seq<Seq<char>>, n: int) -> Option<int>
    decreases n,
{
    if n <= 0 {
        None
    } else {
        match first_lacking(a, n - 1) {
            Some(k) => Some(k),
            None => if lacks_value(a[n - 1]) {
                Some(n - 1)
            } else {
                None
            },
        }
    }
}

/// Settings and switch names gathered from the first `n` arguments.
pub open spec fn gather(a: Seq<Seq<char>>, n: int) -> (Seq<(Seq<char>, Seq<char>)>, Seq<Seq<char>>)
    decreases n,
{
    if n <= 0 {
        (Seq::empty(), Seq::empty())
    } else {
        let (c, s) = gather(a, n - 1);
        let x = a[n - 1];
        match eq_from(x, 0) {
            Some(j) => (c.push((x.subrange(1, j), x.subrange(j + 1, x.len() as int))), s),
            None => {
                let u = upper_of(x.subrange(1, x.len() as int));
                (c, if u.len() > 0 && !s.contains(u) { s.push(u) } else { s })
            },
        }
    }
}

proof fn lemma_first_lacking_stays(a: Seq<Seq<char>>, m: int, n: int)
    requires
        first_lacking(a, m) is Some,
        m <= n,
    ensures
        first_lacking(a, n) == first_lacking(a, m),
    decreases n - m,
{
    if m < n {
        lemma_first_lacking_stays(a, m, n - 1);
    }
}

/// Whether `v` holds the text of `s`.
fn holds(v: &Vec<String>, s: &String) -> (r: bool)
    ensures
        r == texts(v@).contains(s@),
{
    let mut k: usize = 0;
    while k < v.len()
        invariant
            0 <= k <= v@.len(),
            forall|j: int| 0 <= j < k ==> v@[j]@ != s@,
        decreases v@.len() - k,
    {
        if v[k] == *s {
            proof {
                assert(texts(v@)[k as int] == s@);
            }
            return true;
        }
        k = k + 1;
    }
    proof {
        if texts(v@).contains(s@) {
            let j = choose|j: int| 0 <= j < texts(v@).len() && texts(v@)[j] == s@;
            assert(v@[j]@ == s@);
        }
    }
    false
}

fn is_option_arg(a: &String) -> (r: bool)
    ensures
        r == is_option(a@),
{
    let s = a.as_str();
    s.unicode_len() > 0 && s.get_char(0) == '-'
}

fn find_eq(a: &str) -> (r: Option<usize>)
    ensures
        r matches Some(j) ==> eq_from(a@, 0) == Some(j as int) && j < a@.len() && a@[j as int] == '=',
        r is None ==> eq_from(a@, 0) is None,
{
    let n = a.unicode_len();
    let mut i: usize = 0;
    while i < n
        invariant
            n == a@.len(),
            0 <= i <= n,
            eq_from(a@, i as int) == eq_from(a@, 0),
        decreases n - i,
    {
        if a.get_char(i) == '=' {
            return Some(i);
        }
        i = i + 1;
    }
    None
}

/// Reads the parameters: leading options, each a `-key=value` setting or a
/// `-switch` flag, then the input paths, which are the first argument that
/// does not start with `-` and every argument after it.
pub fn make_params(args: &[String]) -> (r: Result<Params, ParamsError>)
    ensures
        forall|n: int|
            #[trigger] option_run(texts(args@), n) ==> match first_lacking(texts(args@), n) {
                Some(k) => r matches Err(ParamsError::LackValue(e)) && e@ == texts(args@)[k],
                None => if n == args@.len() {
                    r matches Err(ParamsError::LackInputPath)
                } else {
                    r matches Ok(p) && confs_view(p.confs@) == gather(texts(args@), n).0
                        && texts(p.switchs@) == gather(texts(args@), n).1
                        && p.conf_view() == conf_map(gather(texts(args@), n).0)
                        && p.switch_view() == gather(texts(args@), n).1.to_set()
                        && texts(p.switchs@).no_duplicates() && texts(p.input_paths@)
                        == texts(args@).subrange(n, args@.len() as int)
                },
            },
{
    let ghost a = texts(args@);
    let mut params = Params::new();
    let mut i: usize = 0;
    proof {
        assert(confs_view(params.confs@) =~= Seq::<(Seq<char>, Seq<char>)>::empty());
        assert(texts(params.switchs@) =~= Seq::<Seq<char>>::empty());
    }
    while i < args.len() && is_option_arg(&args[i])
        invariant
            a == texts(args@),
            0 <= i <= args@.len(),
            forall|k: int| 0 <= k < i ==> is_option(#[trigger] a[k]),
            first_lacking(a, i as int) is None,
            confs_view(params.confs@) == gather(a, i as int).0,
            texts(params.switchs@) == gather(a, i as int).1,
            texts(params.switchs@).no_duplicates(),
            params.input_paths@.len() == 0,
        decreases args@.len() - i,
    {
        let s = args[i].as_str();
        let len = s.unicode_len();
        assert(a[i as int] == s@);
        match find_eq(s) {
            Some(j) => {
                if j + 1 == len {
                    proof {
                        assert(first_lacking(a, i + 1) == Some(i as int));
                        assert forall|n: int| #[trigger] option_run(a, n) implies first_lacking(a, n)
                            == Some(i as int) by {
                            if n <= i {
                                assert(is_option(a[n]));
                            } else {
                                lemma_first_lacking_stays(a, i + 1, n);
                            }
                        }
                    }
                    return Err(ParamsError::LackValue(args[i].clone()));
                }
                let key = s.substring_char(1, j).to_owned();
                let value = s.substring_char(j + 1, len).to_owned();
                let ghost before = params.confs@;
                params.confs.push((key, value));
                proof {
                    assert(confs_view(params.confs@) =~= confs_view(before).push((key@, value@)));
                }
            },
            None => {
                let name = uppercase(s.substring_char(1, len));
                if name.unicode_len() > 0 && !holds(&params.switchs, &name) {
                    let ghost before = params.switchs@;
                    params.switchs.push(name);
                    proof {
                        assert(texts(params.switchs@) =~= texts(before).push(name@));
                        assert forall|x: int, y: int|
                            0 <= x < y < texts(params.switchs@).len() implies texts(
                            params.switchs@,
                        )[x] != texts(params.switchs@)[y] by {
                            if y < texts(before).len() {
                                assert(texts(before)[x] != texts(before)[y]);
                            } else {
                                assert(texts(before)[x] != name@) by {
                                    assert(texts(before).contains(texts(before)[x]));
                                }
                            }
                        }
                    }
                }
            },
        }
        i = i + 1;
    }
    proof {
        assert(option_run(a, i as int));
        assert forall|n: int| #[trigger] option_run(a, n) implies n == i by {
            if n < i {
                assert(is_option(a[n]));
            } else if n > i {
                assert(is_option(a[i as int]));
            }
        }
    }
    if i == args.len() {
        return Err(ParamsError::LackInputPath);
    }
    let start = i;
    while i < args.len()
        invariant
            a == texts(args@),
            start <= i <= args@.len(),
            texts(params.input_paths@) == a.subrange(start as int, i as int),
            confs_view(params.confs@) == gather(a, start as int).0,
            texts(params.switchs@) == gather(a, start as int).1,
            texts(params.switchs@).no_duplicates(),
        decreases args@.len() - i,
    {
        let ghost before = params.input_paths@;
        params.input_paths.push(args[i].clone());
        proof {
            assert(texts(params.input_paths@) =~= texts(before).push(args@[i as int]@));
            assert(texts(params.input_paths@) =~= a.subrange(start as int, i + 1));
        }
        i = i + 1;
    }
    Ok(params)
}

} // verus!
