//! Splitting one combined shader source text into its vertex and
//! fragment stages.
//!
//! A combined source interleaves GLSL lines for both stages. A line
//! that begins with `#shader` is a directive: it selects the stage the
//! following lines go to, `vertex` when its remainder mentions that
//! word, else `fragment` when it mentions that one, and anything else
//! is a fatal error. Lines before the first directive are dropped.
//! Each stage's output is the platform's version pragma line followed
//! by that stage's lines in source order.

use crate::text::{
    begins_with, contains_sub, line_end_from, split_lines, str_begins_with, str_contains,
};
use vstd::prelude::*;

verus! {

/// The stage a scanned line is being accumulated into. `Unset` is the
/// state before any directive line has been seen.
#[derive(Clone, Copy, PartialEq, Eq, Structural, Debug)]
pub enum ShaderType {
    Unset,
    Fragment,
    Vertex,
}

/// One compilable source string together with its stage tag.
pub struct Shader {
    pub source: String,
    pub shader_type: ShaderType,
}

/// The originating path plus one vertex and one fragment unit.
pub struct ShaderData {
    pub source_path: String,
    pub vertex_shader: Shader,
    pub fragment_shader: Shader,
}

/// How splitting a source text fails.
#[derive(Clone, Copy, PartialEq, Eq, Structural, Debug)]
pub enum ShaderError {
    /// The source file does not exist or cannot be read as text.
    SourceUnreadable,
    /// A `#shader` line names neither `vertex` nor `fragment`.
    UnknownDirective,
}

/// The platform family a build targets; it selects the version pragma.
#[derive(Clone, Copy, PartialEq, Eq, Structural, Debug)]
pub enum TargetPlatform {
    MacOs,
    Other,
}

/// The version pragma line (without its newline) for a platform family.
pub open spec fn version_pragma_spec(p: TargetPlatform) -> Seq<char> {
    match p {
        TargetPlatform::MacOs => seq!['#', 'v', 'e', 'r', 's', 'i', 'o', 'n', ' ', '4', '1', '0'],
        TargetPlatform::Other => seq!['#', 'v', 'e', 'r', 's', 'i', 'o', 'n', ' ', '1', '3', '0'],
    }
}

/// The version pragma for a platform family.
pub fn version_pragma(p: TargetPlatform) -> (r: &'static str)
    ensures
        r@ == version_pragma_spec(p),
{
    match p {
        TargetPlatform::MacOs => {
            let s = "#version 410";
            proof {
                reveal_strlit("#version 410");
                assert(s@ =~= version_pragma_spec(p));
            }
            s
        },
        TargetPlatform::Other => {
            let s = "#version 130";
            proof {
                reveal_strlit("#version 130");
                assert(s@ =~= version_pragma_spec(p));
            }
            s
        },
    }
}

/// The token that opens a directive line.
pub open spec fn directive_token() -> Seq<char> {
    seq!['#', 's', 'h', 'a', 'd', 'e', 'r']
}

/// The word that selects the vertex stage.
pub open spec fn vertex_token() -> Seq<char> {
    seq!['v', 'e', 'r', 't', 'e', 'x']
}

/// The word that selects the fragment stage.
pub open spec fn fragment_token() -> Seq<char> {
    seq!['f', 'r', 'a', 'g', 'm', 'e', 'n', 't']
}

/// A directive line: one that begins with `#shader`.
pub open spec fn is_directive(l: Seq<char>) -> bool {
    begins_with(l, directive_token())
}

/// The directive mentions `vertex` somewhere on the line.
pub open spec fn names_vertex(l: Seq<char>) -> bool {
    contains_sub(l, vertex_token())
}

/// The directive mentions `fragment` somewhere on the line.
pub open spec fn names_fragment(l: Seq<char>) -> bool {
    contains_sub(l, fragment_token())
}

/// A line as it stands in an output buffer: the line plus a newline.
pub open spec fn line_with_break(l: Seq<char>) -> Seq<char> {
    l.push('\n')
}

/// Scanning `lines` from stage `stage`: the stage left active at the
/// end, and the text each stage accumulates — or `None` as soon as a
/// directive names neither stage. A non-directive line goes, with a
/// newline, to the active stage's text, and nowhere from `Unset`. A
/// directive naming both stages selects the vertex one.
pub open spec fn scan_lines(lines: Seq<Seq<char>>, stage: ShaderType) -> Option<
    (ShaderType, Seq<char>, Seq<char>),
>
    decreases lines.len(),
{
    if lines.len() == 0 {
        Option::Some((stage, Seq::empty(), Seq::empty()))
    } else {
        let l = lines[0];
        let rest = lines.drop_first();
        if is_directive(l) {
            if names_vertex(l) {
                scan_lines(rest, ShaderType::Vertex)
            } else if names_fragment(l) {
                scan_lines(rest, ShaderType::Fragment)
            } else {
                Option::None
            }
        } else {
            match scan_lines(rest, stage) {
                Option::Some((end, v, f)) => match stage {
                    ShaderType::Unset => Option::Some((end, v, f)),
                    ShaderType::Vertex => Option::Some((end, line_with_break(l) + v, f)),
                    ShaderType::Fragment => Option::Some((end, v, line_with_break(l) + f)),
                },
                Option::None => Option::None,
            }
        }
    }
}

/// What splitting `source` under version pragma `pragma` yields: the
/// vertex and fragment outputs, each the pragma line followed by that
/// stage's text — or `None` when some directive names neither stage.
pub open spec fn split_result(source: Seq<char>, pragma: Seq<char>) -> Option<
    (Seq<char>, Seq<char>),
> {
    match scan_lines(split_lines(source), ShaderType::Unset) {
        Option::Some((end, v, f)) => Option::Some(
            (line_with_break(pragma) + v, line_with_break(pragma) + f),
        ),
        Option::None => Option::None,
    }
}

/// What one line contributes to a scan that reaches it at `stage`.
proof fn lemma_scan_singleton(l: Seq<char>, stage: ShaderType)
    ensures
        scan_lines(seq![l], stage) == (if is_directive(l) {
            if names_vertex(l) {
                Option::Some((ShaderType::Vertex, Seq::<char>::empty(), Seq::<char>::empty()))
            } else if names_fragment(l) {
                Option::Some((ShaderType::Fragment, Seq::<char>::empty(), Seq::<char>::empty()))
            } else {
                Option::<(ShaderType, Seq<char>, Seq<char>)>::None
            }
        } else {
            match stage {
                ShaderType::Unset => Option::Some(
                    (stage, Seq::<char>::empty(), Seq::<char>::empty()),
                ),
                ShaderType::Vertex => Option::Some(
                    (stage, line_with_break(l), Seq::<char>::empty()),
                ),
                ShaderType::Fragment => Option::Some(
                    (stage, Seq::<char>::empty(), line_with_break(l)),
                ),
            }
        }),
{
    reveal_with_fuel(scan_lines, 2);
    let ls = seq![l];
    assert(ls.drop_first() =~= Seq::<Seq<char>>::empty());
    assert(line_with_break(l) + Seq::<char>::empty() =~= line_with_break(l));
}

/// Scanning composes over concatenation of line sequences, stage by
/// stage: the text a stage gets from `ls1 + ls2` is the text it gets
/// from `ls1` followed by the text it gets from `ls2` (resumed at the
/// stage `ls1` left active). So within each stage, output text stands
/// in the order its lines appeared in the source, and an unrecognized
/// directive anywhere fails the whole scan.
pub proof fn lemma_scan_append(ls1: Seq<Seq<char>>, ls2: Seq<Seq<char>>, stage: ShaderType)
    ensures
        (match scan_lines(ls1, stage) {
            Option::Some(mid) => scan_lines(ls1 + ls2, stage) == (match scan_lines(ls2, mid.0) {
                Option::Some(end) => Option::Some((end.0, mid.1 + end.1, mid.2 + end.2)),
                Option::None => Option::<(ShaderType, Seq<char>, Seq<char>)>::None,
            }),
            Option::None => scan_lines(ls1 + ls2, stage) is None,
        }),
    decreases ls1.len(),
{
    if ls1.len() == 0 {
        assert(ls1 + ls2 =~= ls2);
        match scan_lines(ls2, stage) {
            Option::Some(end) => {
                assert(Seq::<char>::empty() + end.1 =~= end.1);
                assert(Seq::<char>::empty() + end.2 =~= end.2);
            },
            Option::None => {},
        }
    } else {
        let l = ls1[0];
        let rest = ls1.drop_first();
        assert((ls1 + ls2)[0] == l);
        assert((ls1 + ls2).drop_first() =~= rest + ls2);
        if is_directive(l) {
            if names_vertex(l) {
                lemma_scan_append(rest, ls2, ShaderType::Vertex);
            } else if names_fragment(l) {
                lemma_scan_append(rest, ls2, ShaderType::Fragment);
            }
        } else {
            lemma_scan_append(rest, ls2, stage);
            match scan_lines(rest, stage) {
                Option::Some(mid) => {
                    match scan_lines(ls2, mid.0) {
                        Option::Some(end) => {
                            assert(line_with_break(l) + (mid.1 + end.1) =~= (line_with_break(l)
                                + mid.1) + end.1);
                            assert(line_with_break(l) + (mid.2 + end.2) =~= (line_with_break(l)
                                + mid.2) + end.2);
                        },
                        Option::None => {},
                    }
                },
                Option::None => {},
            }
        }
    }
}

/// Splits `source` into its vertex and fragment outputs, each headed
/// by `pragma`'s line. Fails exactly when some directive line names
/// neither stage, and then returns no partial output.
pub fn split_stage_sources(source: &str, pragma: &str) -> (r: Result<
    (String, String),
    ShaderError,
>)
    ensures
        (match r {
            Result::Ok(pair) => split_result(source@, pragma@) == Option::Some((pair.0@, pair.1@)),
            Result::Err(e) => e == ShaderError::UnknownDirective && split_result(source@, pragma@)
                is None,
        }),
{
    let n = source.unicode_len();
    let mut vertex = String::new();
    vertex.append(pragma);
    vertex.append("\n");
    let mut fragment = vertex.clone();
    let mut stage = ShaderType::Unset;
    let mut pos: usize = 0;
    let ghost mut done: Seq<Seq<char>> = Seq::empty();
    let ghost mut vbody: Seq<char> = Seq::empty();
    let ghost mut fbody: Seq<char> = Seq::empty();
    proof {
        reveal_strlit("\n");
        assert(vertex@ =~= line_with_break(pragma@) + vbody);
        assert(fragment@ =~= line_with_break(pragma@) + fbody);
        assert(source@.subrange(0, n as int) =~= source@);
        assert(split_lines(source@) =~= done + split_lines(source@.subrange(0, n as int)));
        assert(scan_lines(done, ShaderType::Unset) == Option::Some(
            (ShaderType::Unset, Seq::<char>::empty(), Seq::<char>::empty()),
        ));
    }
    while pos < n
        invariant
            pos <= n,
            n == source@.len(),
            split_lines(source@) == done + split_lines(source@.subrange(pos as int, n as int)),
            scan_lines(done, ShaderType::Unset) == Option::Some((stage, vbody, fbody)),
            vertex@ == line_with_break(pragma@) + vbody,
            fragment@ == line_with_break(pragma@) + fbody,
        decreases n - pos,
    {
        let ghost prev = stage;
        let j = line_end_from(source, pos);
        let line = source.substring_char(pos, j);
        let next_pos = if j < n {
            j + 1
        } else {
            n
        };
        let ghost rem = source@.subrange(pos as int, n as int);
        let ghost rem2 = source@.subrange(next_pos as int, n as int);
        proof {
            reveal_strlit("#shader");
            reveal_strlit("vertex");
            reveal_strlit("fragment");
            reveal_strlit("\n");
            assert("#shader"@ =~= directive_token());
            assert("vertex"@ =~= vertex_token());
            assert("fragment"@ =~= fragment_token());
            assert(rem.subrange(0, j - pos) =~= line@);
            if j < n {
                assert(rem.subrange(j - pos + 1, rem.len() as int) =~= rem2);
            } else {
                assert(rem =~= line@);
                assert(rem2 =~= Seq::<char>::empty());
                assert(split_lines(rem2) == Seq::<Seq<char>>::empty());
                assert(seq![rem] =~= seq![line@]);
            }
            assert(split_lines(rem) == seq![line@] + split_lines(rem2));
            lemma_scan_singleton(line@, prev);
            lemma_scan_append(done, seq![line@], ShaderType::Unset);
            done = done + seq![line@];
            assert(split_lines(source@) == done + split_lines(rem2));
        }
        if str_begins_with(line, "#shader") {
            if str_contains(line, "vertex") {
                stage = ShaderType::Vertex;
                proof {
                    assert(vbody + Seq::<char>::empty() =~= vbody);
                    assert(fbody + Seq::<char>::empty() =~= fbody);
                }
            } else if str_contains(line, "fragment") {
                stage = ShaderType::Fragment;
                proof {
                    assert(vbody + Seq::<char>::empty() =~= vbody);
                    assert(fbody + Seq::<char>::empty() =~= fbody);
                }
            } else {
                proof {
                    lemma_scan_append(done, split_lines(rem2), ShaderType::Unset);
                }
                return Result::Err(ShaderError::UnknownDirective);
            }
        } else {
            match stage {
                ShaderType::Unset => {
                    proof {
                        assert(vbody + Seq::<char>::empty() =~= vbody);
                        assert(fbody + Seq::<char>::empty() =~= fbody);
                    }
                },
                ShaderType::Vertex => {
                    vertex.append(line);
                    vertex.append("\n");
                    proof {
                        assert(line_with_break(line@) =~= line@ + "\n"@);
                        vbody = vbody + line_with_break(line@);
                        assert(vertex@ =~= line_with_break(pragma@) + vbody);
                        assert(fbody + Seq::<char>::empty() =~= fbody);
                    }
                },
                ShaderType::Fragment => {
                    fragment.append(line);
                    fragment.append("\n");
                    proof {
                        assert(line_with_break(line@) =~= line@ + "\n"@);
                        fbody = fbody + line_with_break(line@);
                        assert(fragment@ =~= line_with_break(pragma@) + fbody);
                        assert(vbody + Seq::<char>::empty() =~= vbody);
                    }
                },
            }
        }
        pos = next_pos;
    }
    proof {
        assert(source@.subrange(pos as int, n as int) =~= Seq::<char>::empty());
        assert(split_lines(source@.subrange(pos as int, n as int)) == Seq::<Seq<char>>::empty());
        assert(done + Seq::<Seq<char>>::empty() =~= done);
    }
    Result::Ok((vertex, fragment))
}

impl ShaderData {
    /// Each unit carries the tag of the stage it was split out for.
    pub open spec fn wf(self) -> bool {
        self.vertex_shader.shader_type == ShaderType::Vertex && self.fragment_shader.shader_type
            == ShaderType::Fragment
    }

    /// Splits an already-read source text for the given platform
    /// family. Fails exactly when a directive names neither stage.
    pub fn from_source(source_path: String, source: &str, platform: TargetPlatform) -> (r: Result<
        ShaderData,
        ShaderError,
    >)
        ensures
            (match r {
                Result::Ok(d) => {
                    &&& d.wf()
                    &&& d.source_path == source_path
                    &&& split_result(source@, version_pragma_spec(platform)) == Option::Some(
                        (d.vertex_shader.source@, d.fragment_shader.source@),
                    )
                },
                Result::Err(e) => {
                    &&& e == ShaderError::UnknownDirective
                    &&& split_result(source@, version_pragma_spec(platform)) is None
                },
            }),
    {
        let pragma = version_pragma(platform);
        match split_stage_sources(source, pragma) {
            Result::Ok(pair) => {
                let (v, f) = pair;
                Result::Ok(
                    ShaderData {
                        source_path,
                        vertex_shader: Shader { source: v, shader_type: ShaderType::Vertex },
                        fragment_shader: Shader { source: f, shader_type: ShaderType::Fragment },
                    },
                )
            },
            Result::Err(e) => Result::Err(e),
        }
    }

    /// Builds the split shader data for a source file. `contents` is
    /// what reading the file at `source_path` produced: `None` when it
    /// was missing or unreadable, which fails with `SourceUnreadable`.
    pub fn new(source_path: String, contents: Option<String>, platform: TargetPlatform) -> (r:
        Result<ShaderData, ShaderError>)
        ensures
            (match contents {
                Option::Some(text) => match r {
                    Result::Ok(d) => {
                        &&& d.wf()
                        &&& d.source_path == source_path
                        &&& split_result(text@, version_pragma_spec(platform)) == Option::Some(
                            (d.vertex_shader.source@, d.fragment_shader.source@),
                        )
                    },
                    Result::Err(e) => {
                        &&& e == ShaderError::UnknownDirective
                        &&& split_result(text@, version_pragma_spec(platform)) is None
                    },
                },
                Option::None => r matches Result::Err(ShaderError::SourceUnreadable),
            }),
    {
        match contents {
            Option::Some(text) => Self::from_source(source_path, text.as_str(), platform),
            Option::None => Result::Err(ShaderError::SourceUnreadable),
        }
    }
}

/// Splitting is deterministic: it is a function of the source text and
/// the pragma alone, so two outcomes of splitting the same input are
/// identical, stage by stage.
pub proof fn lemma_split_deterministic(
    source: Seq<char>,
    pragma: Seq<char>,
    r1: Option<(Seq<char>, Seq<char>)>,
    r2: Option<(Seq<char>, Seq<char>)>,
)
    requires
        r1 == split_result(source, pragma),
        r2 == split_result(source, pragma),
    ensures
        r1 == r2,
{
}

/// Both outputs of a successful split begin with the pragma line, put
/// there exactly once: each output is the pragma line followed by the
/// lines the scan assigned to that stage, and nothing else.
pub proof fn lemma_outputs_begin_with_pragma(
    source: Seq<char>,
    pragma: Seq<char>,
    v: Seq<char>,
    f: Seq<char>,
)
    requires
        split_result(source, pragma) == Option::Some((v, f)),
    ensures
        pragma.len() < v.len() && v.subrange(0, pragma.len() as int + 1) == line_with_break(pragma),
        pragma.len() < f.len() && f.subrange(0, pragma.len() as int + 1) == line_with_break(pragma),
{
    match scan_lines(split_lines(source), ShaderType::Unset) {
        Option::Some((end, vb, fb)) => {
            assert(v.subrange(0, pragma.len() as int + 1) =~= line_with_break(pragma));
            assert(f.subrange(0, pragma.len() as int + 1) =~= line_with_break(pragma));
        },
        Option::None => {},
    }
}

/// An input without a single directive line contributes nothing: every
/// line is dropped, and both outputs are exactly the pragma line. In
/// particular the pragma line stands in each output even when a stage
/// received no lines at all.
pub proof fn lemma_no_directives_pragma_only(source: Seq<char>, pragma: Seq<char>)
    requires
        forall|i: int|
            0 <= i < split_lines(source).len() ==> !is_directive(#[trigger] split_lines(source)[i]),
    ensures
        split_result(source, pragma) == Option::Some(
            (line_with_break(pragma), line_with_break(pragma)),
        ),
{
    lemma_scan_no_directives(split_lines(source));
    assert(line_with_break(pragma) + Seq::<char>::empty() =~= line_with_break(pragma));
}

/// From `Unset`, lines that are not directives are all dropped.
proof fn lemma_scan_no_directives(lines: Seq<Seq<char>>)
    requires
        forall|i: int| 0 <= i < lines.len() ==> !is_directive(#[trigger] lines[i]),
    ensures
        scan_lines(lines, ShaderType::Unset) == Option::Some(
            (ShaderType::Unset, Seq::<char>::empty(), Seq::<char>::empty()),
        ),
    decreases lines.len(),
{
    if lines.len() > 0 {
        let rest = lines.drop_first();
        assert(forall|i: int| 0 <= i < rest.len() ==> rest[i] == lines[i + 1]);
        lemma_scan_no_directives(rest);
    }
}

} // verus!
