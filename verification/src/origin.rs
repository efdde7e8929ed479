//! What a module cannot say about itself: where it is published, where its code is, under what
//! terms, and the author's tags -- as the command line gives them.
use vstd::prelude::*;
use vstd::string::*;

use crate::text::same_text;

verus! {

/// What the module cannot say about itself.
#[derive(Debug)]
pub struct Origin {
    pub url: String,
    pub source: String,
    pub license: String,
    /// The author's tags, without `bundled`.
    pub tags: Vec<String>,
}

/// An [`Origin`] as text.
pub struct OriginView {
    pub url: Seq<char>,
    pub source: Seq<char>,
    pub license: Seq<char>,
    pub tags: Seq<Seq<char>>,
}

impl View for Origin {
    type V = OriginView;

    open spec fn view(&self) -> OriginView {
        OriginView {
            url: self.url@,
            source: self.source@,
            license: self.license@,
            tags: self.tags.deep_view(),
        }
    }
}

/// The flags read so far.
pub struct Flags {
    pub url: Option<Seq<char>>,
    pub source: Option<Seq<char>>,
    pub license: Seq<char>,
    pub tags: Seq<Seq<char>>,
}

/// An optional string as optional text.
pub open spec fn text_of(s: Option<String>) -> Option<Seq<char>> {
    match s {
        Some(s) => Some(s@),
        None => None,
    }
}

/// The license an entry has unless `--license` says otherwise.
pub open spec fn default_license() -> Seq<char> {
    "MIT OR Apache-2.0"@
}

/// Nothing read yet.
pub open spec fn no_flags() -> Flags {
    Flags { url: None, source: None, license: default_license(), tags: seq![] }
}

/// `args` read as flag and value in pairs onto `flags`: `--url` and `--source` and `--license`
/// set their field, a later one replacing an earlier; `--tag` adds a tag. A flag without a value,
/// or one of no such name, reads as nothing.
pub open spec fn read_flags(args: Seq<Seq<char>>, flags: Flags) -> Option<Flags>
    decreases args.len(),
{
    if args.len() == 0 {
        Some(flags)
    } else if args.len() == 1 {
        None
    } else {
        let (flag, value, rest) = (args[0], args[1], args.skip(2));
        if flag == "--url"@ {
            read_flags(rest, Flags { url: Some(value), ..flags })
        } else if flag == "--source"@ {
            read_flags(rest, Flags { source: Some(value), ..flags })
        } else if flag == "--license"@ {
            read_flags(rest, Flags { license: value, ..flags })
        } else if flag == "--tag"@ {
            read_flags(rest, Flags { tags: flags.tags.push(value), ..flags })
        } else {
            None
        }
    }
}

/// The origin the command line gives: every flag read, and both `--url` and `--source` among
/// them.
pub open spec fn origin_of(args: Seq<Seq<char>>) -> Option<OriginView> {
    match read_flags(args, no_flags()) {
        Some(flags) => match (flags.url, flags.source) {
            (Some(url), Some(source)) => Some(
                OriginView { url, source, license: flags.license, tags: flags.tags },
            ),
            _ => None,
        },
        None => None,
    }
}

/// The origin given by `--url <url> --source <url> [--license <spdx>] [--tag <tag>]...`, in any
/// order; `None` for anything else.
pub fn origin(args: &[String]) -> (found: Option<Origin>)
    ensures
        match found {
            Some(o) => origin_of(args.deep_view()) == Some(o@),
            None => origin_of(args.deep_view()) is None,
        },
{
    let ghost all = args.deep_view();
    let mut url: Option<String> = None;
    let mut source: Option<String> = None;
    let mut license = String::from_str("MIT OR Apache-2.0");
    let mut tags: Vec<String> = Vec::new();
    let mut i: usize = 0;
    assert(all.skip(0) =~= all);
    assert(tags.deep_view() =~= Seq::<Seq<char>>::empty());
    while i < args.len()
        invariant
            all == args.deep_view(),
            0 <= i <= args@.len(),
            read_flags(all, no_flags()) == read_flags(
                all.skip(i as int),
                Flags {
                    url: text_of(url),
                    source: text_of(source),
                    license: license@,
                    tags: tags.deep_view(),
                },
            ),
        decreases args@.len() - i,
    {
        let ghost before = Flags {
            url: text_of(url),
            source: text_of(source),
            license: license@,
            tags: tags.deep_view(),
        };
        let ghost rest = all.skip(i as int);
        if i + 1 >= args.len() {
            assert(rest.len() == 1);
            return None;
        }
        assert(rest[0] == all[i as int] && rest[1] == all[i + 1]);
        assert(rest.skip(2) =~= all.skip(i + 2));
        let flag = args[i].as_str();
        let value = args[i + 1].clone();
        if same_text(flag, "--url") {
            url = Some(value);
        } else if same_text(flag, "--source") {
            source = Some(value);
        } else if same_text(flag, "--license") {
            license = value;
        } else if same_text(flag, "--tag") {
            tags.push(value);
            assert(tags.deep_view() =~= before.tags.push(all[i + 1]));
        } else {
            return None;
        }
        i += 2;
    }
    assert(all.skip(i as int) =~= Seq::<Seq<char>>::empty());
    match (url, source) {
        (Some(url), Some(source)) => Some(Origin { url, source, license, tags }),
        _ => None,
    }
}

} // verus!
