//! The query language's front: the source tree the parser produces —
//! node schemas, edge schemas, and named queries whose body is a chain
//! of traversal steps — and the parser's error taxonomy.

use vstd::prelude::*;

verus! {

/// A parsed source file: schemas and queries, in order of appearance.
pub struct Source {
    pub node_schemas: Vec<NodeSchema>,
    pub edge_schemas: Vec<EdgeSchema>,
    pub queries: Vec<Query>,
}

/// A node schema: a name and its typed property fields.
pub struct NodeSchema {
    pub name: String,
    pub properties: Vec<Field>,
}

/// An edge schema: a name, the two endpoint schemas, and its fields.
pub struct EdgeSchema {
    pub name: String,
    pub from: String,
    pub to: String,
    pub properties: Vec<Field>,
}

/// One typed property field of a schema.
pub struct Field {
    pub name: String,
    pub data_type: DataType,
}

/// The property types the language declares.
#[derive(Debug, Clone, PartialEq, Eq)]
pub enum DataType {
    Number,
    String,
    Boolean,
}

/// A named query: its name, first parameter, body, and returned field.
pub struct Query {
    pub name: String,
    pub parameter: String,
    pub body: QueryBody,
    pub return_type: String,
}

/// A query body: an optional assignment, the source element kind, and
/// the traversal tree.
pub struct QueryBody {
    pub assignment: Option<String>,
    pub element_type: ElementType,
    pub traversal: TraversalStep,
}

/// One node of the parsed traversal tree.
pub struct TraversalStep {
    pub node: String,
    pub filter: Option<String>,
    pub children: Vec<TraversalStep>,
}

/// Which source step a query begins with.
#[derive(Debug, Clone, PartialEq, Eq)]
pub enum ElementType {
    V,
    E,
}

/// What can go wrong while reading a source file.
#[derive(Debug)]
pub enum ParserError {
    ParseError(String),
    LexError(String),
}

impl ParserError {
    /// A readable rendering, one line.
    pub fn message(&self) -> (r: String)
        ensures
            match self {
                ParserError::ParseError(m) => r@ == "Parse error: "@ + m@,
                ParserError::LexError(m) => r@ == "Lex error: "@ + m@,
            },
    {
        match self {
            ParserError::ParseError(m) => {
                let mut s: String = "Parse error: ".to_owned();
                s.append(m.as_str());
                s
            },
            ParserError::LexError(m) => {
                let mut s: String = "Lex error: ".to_owned();
                s.append(m.as_str());
                s
            },
        }
    }
}

/// The shape of a typed field.
pub struct FieldV {
    pub name: Seq<char>,
    pub data_type: DataType,
}

/// The shape of a node schema.
pub struct NodeSchemaV {
    pub name: Seq<char>,
    pub properties: Seq<FieldV>,
}

/// The shape of an edge schema.
pub struct EdgeSchemaV {
    pub name: Seq<char>,
    pub from: Seq<char>,
    pub to: Seq<char>,
    pub properties: Seq<FieldV>,
}

/// The shape of one traversal-tree node.
pub struct TraversalStepV {
    pub node: Seq<char>,
    pub filter: Option<Seq<char>>,
    pub children: Seq<TraversalStepV>,
}

/// The shape of a query.
pub struct QueryV {
    pub name: Seq<char>,
    pub parameter: Seq<char>,
    pub assignment: Option<Seq<char>>,
    pub element_type: ElementType,
    pub traversal: TraversalStepV,
    pub return_type: Seq<char>,
}

/// The shape of a parsed source file.
pub struct SourceV {
    pub node_schemas: Seq<NodeSchemaV>,
    pub edge_schemas: Seq<EdgeSchemaV>,
    pub queries: Seq<QueryV>,
}

/// The shape of a field.
pub open spec fn field_view(f: Field) -> FieldV {
    FieldV { name: f.name@, data_type: f.data_type }
}

/// The shapes of a run of fields, in order.
pub open spec fn fields_view(fs: Seq<Field>) -> Seq<FieldV> {
    Seq::new(fs.len(), |i: int| field_view(fs[i]))
}

/// The shape of a traversal-tree node, recursively.
pub open spec fn step_view(t: TraversalStep) -> TraversalStepV
    decreases t,
{
    TraversalStepV {
        node: t.node@,
        filter: match t.filter {
            Some(f) => Some(f@),
            None => None,
        },
        children: Seq::new(
            t.children@.len(),
            |i: int|
                if 0 <= i < t.children@.len() {
                    proof {
                        assert(decreases_to!(t => t.children));
                        assert(decreases_to!(t.children => t.children@));
                        assert(decreases_to!(t.children@ => t.children@[i]));
                    }
                    step_view(t.children@[i])
                } else {
                    TraversalStepV { node: Seq::empty(), filter: None, children: Seq::empty() }
                },
        ),
    }
}

/// The shape of a node schema.
pub open spec fn node_schema_view(ns: NodeSchema) -> NodeSchemaV {
    NodeSchemaV { name: ns.name@, properties: fields_view(ns.properties@) }
}

/// The shape of an edge schema.
pub open spec fn edge_schema_view(es: EdgeSchema) -> EdgeSchemaV {
    EdgeSchemaV {
        name: es.name@,
        from: es.from@,
        to: es.to@,
        properties: fields_view(es.properties@),
    }
}

/// The shape of a query.
pub open spec fn query_view(q: Query) -> QueryV {
    QueryV {
        name: q.name@,
        parameter: q.parameter@,
        assignment: match q.body.assignment {
            Some(a) => Some(a@),
            None => None,
        },
        element_type: q.body.element_type,
        traversal: step_view(q.body.traversal),
        return_type: q.return_type@,
    }
}

/// The shape of a source file.
pub open spec fn source_view(src: Source) -> SourceV {
    SourceV {
        node_schemas: Seq::new(src.node_schemas@.len(),
            |i: int| node_schema_view(src.node_schemas@[i])),
        edge_schemas: Seq::new(src.edge_schemas@.len(),
            |i: int| edge_schema_view(src.edge_schemas@[i])),
        queries: Seq::new(src.queries@.len(), |i: int| query_view(src.queries@[i])),
    }
}

// ---- the grammar, as functions on the characters ----

/// The character may begin an identifier.
pub open spec fn g_ident_start(c: char) -> bool {
    ('a' <= c && c <= 'z') || ('A' <= c && c <= 'Z') || c == '_'
}

/// The character may continue an identifier.
pub open spec fn g_ident_char(c: char) -> bool {
    ('a' <= c && c <= 'z') || ('A' <= c && c <= 'Z') || ('0' <= c && c <= '9') || c == '_'
}

/// The character is a blank, a tab or a line break.
pub open spec fn g_ws_char(c: char) -> bool {
    c == ' ' || c == '\t' || c == '\n' || c == '\r'
}

/// Position after the whitespace at `pos`.
pub open spec fn g_ws(s: Seq<char>, pos: int) -> int
    decreases s.len() - pos,
{
    if 0 <= pos < s.len() && g_ws_char(s[pos]) {
        g_ws(s, pos + 1)
    } else {
        pos
    }
}

/// Position after the identifier characters at `pos`.
pub open spec fn g_ident_end(s: Seq<char>, pos: int) -> int
    decreases s.len() - pos,
{
    if 0 <= pos < s.len() && g_ident_char(s[pos]) {
        g_ident_end(s, pos + 1)
    } else {
        pos
    }
}

/// One identifier after any whitespace, and the position after it.
pub open spec fn g_ident(s: Seq<char>, pos: int) -> Option<(Seq<char>, int)> {
    let b = g_ws(s, pos);
    if 0 <= b < s.len() && g_ident_start(s[b]) {
        Some((s.subrange(b, g_ident_end(s, b)), g_ident_end(s, b)))
    } else {
        None
    }
}

/// One given punctuation character after any whitespace.
pub open spec fn g_char(s: Seq<char>, pos: int, c: char) -> Option<int> {
    let p = g_ws(s, pos);
    if 0 <= p < s.len() && s[p] == c {
        Some(p + 1)
    } else {
        None
    }
}

/// The type a name declares: `Number` and `Boolean` by name, anything
/// else the string type.
pub open spec fn g_dtype(name: Seq<char>) -> DataType {
    if name == "Number"@ {
        DataType::Number
    } else if name == "Boolean"@ {
        DataType::Boolean
    } else {
        DataType::String
    }
}

/// One `ident : ident` field.
pub open spec fn g_field(s: Seq<char>, pos: int) -> Option<(FieldV, int)> {
    match g_ident(s, pos) {
        Some((name, p1)) => match g_char(s, p1, ':') {
            Some(p2) => match g_ident(s, p2) {
                Some((ty, p3)) => Some((FieldV { name, data_type: g_dtype(ty) }, p3)),
                None => None,
            },
            None => None,
        },
        None => None,
    }
}

/// A comma-separated run of fields; never fails, consuming as many as
/// parse.
pub open spec fn g_fields(s: Seq<char>, pos: int) -> (Seq<FieldV>, int)
    decreases s.len() - pos, 0int,
{
    match g_field(s, pos) {
        None => (Seq::empty(), pos),
        Some((f, p1)) => if !(pos < p1 <= s.len()) {
            (seq![f], p1)
        } else {
            match g_char(s, p1, ',') {
                None => (seq![f], p1),
                Some(p2) => if !(p1 < p2 <= s.len()) {
                    (seq![f], p1)
                } else {
                    let (rest, q) = g_fields(s, p2);
                    (seq![f] + rest, q)
                },
            }
        },
    }
}

/// A node schema after its leading `V`: `:: ident { fields }`.
pub open spec fn g_node_schema(s: Seq<char>, pos: int) -> Option<(NodeSchemaV, int)> {
    match g_char(s, pos, ':') {
        Some(p1) => match g_char(s, p1, ':') {
            Some(p2) => match g_ident(s, p2) {
                Some((name, p3)) => match g_char(s, p3, '{') {
                    Some(p4) => {
                        let (properties, p5) = g_fields(s, p4);
                        match g_char(s, p5, '}') {
                            Some(p6) => Some((NodeSchemaV { name, properties }, p6)),
                            None => None,
                        }
                    },
                    None => None,
                },
                None => None,
            },
            None => None,
        },
        None => None,
    }
}

/// An edge schema after its leading `E`: the doubled colon, its name,
/// and the braced `From`, `To` and optional `Properties` parts.
pub open spec fn g_edge_schema(s: Seq<char>, pos: int) -> Option<(EdgeSchemaV, int)> {
    match g_char(s, pos, ':') {
        Some(p1) => match g_char(s, p1, ':') {
            Some(p2) => match g_ident(s, p2) {
                Some((name, p3)) => match g_char(s, p3, '{') {
                    Some(p4) => match g_ident(s, p4) {
                        Some((from_kw, p5)) => if from_kw != "From"@ {
                            None
                        } else {
                            match g_char(s, p5, ':') {
                                Some(p6) => match g_ident(s, p6) {
                                    Some((from, p7)) => match g_char(s, p7, ',') {
                                        Some(p8) => match g_ident(s, p8) {
                                            Some((to_kw, p9)) => if to_kw != "To"@ {
                                                None
                                            } else {
                                                match g_char(s, p9, ':') {
                                                    Some(p10) => match g_ident(s, p10) {
                                                        Some((to, p11)) => g_edge_tail(
                                                            s, p11, name, from, to),
                                                        None => None,
                                                    },
                                                    None => None,
                                                }
                                            },
                                            None => None,
                                        },
                                        None => None,
                                    },
                                    None => None,
                                },
                                None => None,
                            }
                        },
                        None => None,
                    },
                    None => None,
                },
                None => None,
            },
            None => None,
        },
        None => None,
    }
}

/// The tail of an edge schema after `To : ident`: an optional
/// `, Properties { fields }`, an optional bare comma, and the brace.
pub open spec fn g_edge_tail(s: Seq<char>, pos: int, name: Seq<char>, from: Seq<char>, to: Seq<char>) -> Option<(EdgeSchemaV, int)> {
    let done = |properties: Seq<FieldV>, p: int| match g_char(s, p, '}') {
        Some(q) => Some((EdgeSchemaV { name, from, to, properties }, q)),
        None => None::<(EdgeSchemaV, int)>,
    };
    match g_char(s, pos, ',') {
        Some(p12) => match g_ident(s, p12) {
            Some((props_kw, p13)) => if props_kw != "Properties"@ {
                None
            } else {
                match g_char(s, p13, '{') {
                    Some(p14) => {
                        let (fields, p15) = g_fields(s, p14);
                        match g_char(s, p15, '}') {
                            Some(p16) => done(fields, p16),
                            None => None,
                        }
                    },
                    None => None,
                }
            },
            None => done(Seq::empty(), p12),
        },
        None => done(Seq::empty(), pos),
    }
}

/// The chained `-> ident` children of a query's traversal.
pub open spec fn g_children(s: Seq<char>, pos: int) -> (Seq<TraversalStepV>, int)
    decreases s.len() - pos, 0int,
{
    match g_char(s, pos, '-') {
        None => (Seq::empty(), pos),
        Some(p1) => match g_char(s, p1, '>') {
            None => (Seq::empty(), pos),
            Some(p2) => match g_ident(s, p2) {
                None => (Seq::empty(), pos),
                Some((child, p3)) => if !(pos < p3 <= s.len()) {
                    (Seq::empty(), pos)
                } else {
                    let (rest, q) = g_children(s, p3);
                    (seq![TraversalStepV { node: child, filter: None, children: Seq::empty() }]
                        + rest, q)
                },
            },
        },
    }
}

/// A query after its leading `QUERY`: name, optional parameter list,
/// `=> GET`, optional assignment, source kind, label, chained children,
/// and `RETURN ident`.
pub open spec fn g_query(s: Seq<char>, pos: int) -> Option<(QueryV, int)> {
    match g_ident(s, pos) {
        Some((name, p1)) => {
            let params = match g_char(s, p1, '(') {
                Some(p2) => {
                    let (ps, p3) = g_fields(s, p2);
                    match g_char(s, p3, ')') {
                        Some(p4) => Some((
                            if ps.len() > 0 {
                                ps[0].name
                            } else {
                                Seq::<char>::empty()
                            },
                            p4,
                        )),
                        None => None,
                    }
                },
                None => Some((Seq::<char>::empty(), p1)),
            };
            match params {
                Some((parameter, pa)) => match g_char(s, pa, '=') {
                    Some(p5) => match g_char(s, p5, '>') {
                        Some(p6) => match g_ident(s, p6) {
                            Some((get_kw, p7)) => if get_kw != "GET"@ {
                                None
                            } else {
                                match g_ident(s, p7) {
                                    Some((head, p8)) => {
                                        let aim = match g_char(s, p8, '<') {
                                            Some(p10) => match g_char(s, p10, '-') {
                                                Some(p11) => match g_ident(s, p11) {
                                                    Some((src_kw, p12)) => Some((
                                                        Some(head), src_kw, p12)),
                                                    None => None,
                                                },
                                                None => None,
                                            },
                                            None => Some((None::<Seq<char>>, head, p8)),
                                        };
                                        match aim {
                                            Some((assignment, element_name, p9)) =>
                                                g_query_tail(s, p9, name, parameter,
                                                    assignment, element_name),
                                            None => None,
                                        }
                                    },
                                    None => None,
                                }
                            },
                            None => None,
                        },
                        None => None,
                    },
                    None => None,
                },
                None => None,
            }
        },
        None => None,
    }
}

/// The tail of a query after its source kind: `:: ident`, the chained
/// children, and `RETURN ident`.
pub open spec fn g_query_tail(s: Seq<char>, pos: int, name: Seq<char>, parameter: Seq<char>, assignment: Option<Seq<char>>, element_name: Seq<char>) -> Option<(QueryV, int)> {
    let element_type = if element_name == "V"@ {
        Some(ElementType::V)
    } else if element_name == "E"@ {
        Some(ElementType::E)
    } else {
        None::<ElementType>
    };
    match element_type {
        Some(element_type) => match g_char(s, pos, ':') {
            Some(p13) => match g_char(s, p13, ':') {
                Some(p14) => match g_ident(s, p14) {
                    Some((node, p15)) => {
                        let (children, p16) = g_children(s, p15);
                        match g_ident(s, p16) {
                            Some((return_kw, p17)) => if return_kw != "RETURN"@ {
                                None
                            } else {
                                match g_ident(s, p17) {
                                    Some((return_type, p18)) => Some((
                                        QueryV {
                                            name,
                                            parameter,
                                            assignment,
                                            element_type,
                                            traversal: TraversalStepV {
                                                node,
                                                filter: None,
                                                children,
                                            },
                                            return_type,
                                        },
                                        p18,
                                    )),
                                    None => None,
                                }
                            },
                            None => None,
                        }
                    },
                    None => None,
                },
                None => None,
            },
            None => None,
        },
        None => None,
    }
}

/// A whole source file from `pos`: whitespace-separated items to the
/// end, each a node schema, an edge schema or a query.
pub open spec fn g_source(s: Seq<char>, pos: int) -> Option<SourceV>
    decreases s.len() - pos, 1int,
{
    let b = g_ws(s, pos);
    if !(pos <= b <= s.len()) {
        None
    } else if b >= s.len() {
        Some(SourceV {
            node_schemas: Seq::empty(),
            edge_schemas: Seq::empty(),
            queries: Seq::empty(),
        })
    } else {
        match g_ident(s, b) {
            None => None,
            Some((head, p1)) => if !(b < p1 <= s.len()) {
                None
            } else if head == "V"@ {
                match g_node_schema(s, p1) {
                    Some((ns, p2)) => if !(p1 < p2 <= s.len()) {
                        None
                    } else {
                        match g_source(s, p2) {
                            Some(rest) => Some(SourceV {
                                node_schemas: seq![ns] + rest.node_schemas,
                                edge_schemas: rest.edge_schemas,
                                queries: rest.queries,
                            }),
                            None => None,
                        }
                    },
                    None => None,
                }
            } else if head == "E"@ {
                match g_edge_schema(s, p1) {
                    Some((es, p2)) => if !(p1 < p2 <= s.len()) {
                        None
                    } else {
                        match g_source(s, p2) {
                            Some(rest) => Some(SourceV {
                                node_schemas: rest.node_schemas,
                                edge_schemas: seq![es] + rest.edge_schemas,
                                queries: rest.queries,
                            }),
                            None => None,
                        }
                    },
                    None => None,
                }
            } else if head == "QUERY"@ {
                match g_query(s, p1) {
                    Some((q, p2)) => if !(p1 < p2 <= s.len()) {
                        None
                    } else {
                        match g_source(s, p2) {
                            Some(rest) => Some(SourceV {
                                node_schemas: rest.node_schemas,
                                edge_schemas: rest.edge_schemas,
                                queries: seq![q] + rest.queries,
                            }),
                            None => None,
                        }
                    },
                    None => None,
                }
            } else {
                None
            }
        }
    }
}

/// The language's parser: recursive descent over the characters,
/// proved to return exactly what the grammar functions above define.
///
/// The surface grammar, whitespace-separated:
///
/// ```text
/// source      = item* ;
/// item        = node_schema | edge_schema | query ;
/// node_schema = "V" "::" ident "{" fields "}" ;
/// edge_schema = "E" "::" ident "{" "From" ":" ident ","
///               "To" ":" ident ( "," "Properties" "{" fields "}" )? ","? "}" ;
/// fields      = ( field ( "," field )* ","? )? ;
/// field       = ident ":" ident ;          // "Number" | "Boolean" | else String
/// query       = "QUERY" ident ( "(" fields ")" )? "=>"
///               "GET" ( ident "<-" )? ( "V" | "E" ) "::" ident
///               ( "->" ident )* "RETURN" ident ;
/// ident       = [A-Za-z_] [A-Za-z0-9_]* ;
/// ```
pub struct HelixParser;

/// The characters of a string, one by one.
fn chars_of(s: &str) -> (r: Vec<char>)
    ensures
        r@ == s@,
{
    let n = s.unicode_len();
    let mut out: Vec<char> = Vec::new();
    let mut i: usize = 0;
    while i < n
        invariant
            i <= n,
            n == s@.len(),
            out@ == s@.take(i as int),
        decreases n - i,
    {
        out.push(s.get_char(i));
        proof {
            assert(out@ =~= s@.take(i + 1));
        }
        i = i + 1;
    }
    proof {
        assert(s@.take(n as int) =~= s@);
    }
    out
}

/// Skips blanks, tabs and line breaks.
fn skip_ws(cs: &Vec<char>, pos: usize) -> (p: usize)
    requires
        pos <= cs@.len(),
    ensures
        pos <= p <= cs@.len(),
        p as int == g_ws(cs@, pos as int),
{
    let mut p = pos;
    let n = cs.len();
    while p < n && (cs[p] == ' ' || cs[p] == '\t' || cs[p] == '\n' || cs[p] == '\r')
        invariant
            pos <= p <= n,
            n == cs@.len(),
            g_ws(cs@, pos as int) == g_ws(cs@, p as int),
        decreases n - p,
    {
        p = p + 1;
    }
    proof {
        assert(g_ws(cs@, p as int) == p as int);
    }
    p
}

/// Reads one identifier after any whitespace.
fn parse_ident(cs: &Vec<char>, pos: usize) -> (r: Option<(String, usize)>)
    requires
        pos <= cs@.len(),
    ensures
        match r {
            Some(t) => g_ident(cs@, pos as int) == Some((t.0@, t.1 as int))
                && pos < t.1 <= cs@.len(),
            None => g_ident(cs@, pos as int) is None,
        },
{
    let p0 = skip_ws(cs, pos);
    if p0 >= cs.len() {
        return None;
    }
    let c0 = cs[p0];
    if !(('a' <= c0 && c0 <= 'z') || ('A' <= c0 && c0 <= 'Z') || c0 == '_') {
        return None;
    }
    let mut p = p0;
    let mut name = String::new();
    let n = cs.len();
    while p < n && (('a' <= cs[p] && cs[p] <= 'z') || ('A' <= cs[p] && cs[p] <= 'Z')
        || ('0' <= cs[p] && cs[p] <= '9') || cs[p] == '_')
        invariant
            p0 <= p <= n,
            n == cs@.len(),
            name@ == cs@.subrange(p0 as int, p as int),
            g_ident_end(cs@, p0 as int) == g_ident_end(cs@, p as int),
        decreases n - p,
    {
        crate::binfmt::push_char(&mut name, cs[p]);
        proof {
            assert(name@ =~= cs@.subrange(p0 as int, p + 1));
        }
        p = p + 1;
    }
    proof {
        assert(g_ident_end(cs@, p as int) == p as int);
        assert(p > p0);
    }
    Some((name, p))
}

/// Consumes the given punctuation after any whitespace.
fn expect_char(cs: &Vec<char>, pos: usize, c: char) -> (r: Option<usize>)
    requires
        pos <= cs@.len(),
    ensures
        match r {
            Some(p) => g_char(cs@, pos as int, c) == Some(p as int) && pos < p <= cs@.len(),
            None => g_char(cs@, pos as int, c) is None,
        },
{
    let p = skip_ws(cs, pos);
    if p < cs.len() && cs[p] == c {
        Some(p + 1)
    } else {
        None
    }
}

/// Maps a type name: `Number` and `Boolean` by name, anything else the
/// string type.
fn data_type_of(name: &str) -> (r: DataType)
    ensures
        r == g_dtype(name@),
{
    proof {
        reveal_strlit("Number");
        reveal_strlit("Boolean");
        assert("Number"@.len() != "Boolean"@.len());
    }
    if crate::value::str_eq(name, "Number") {
        DataType::Number
    } else if crate::value::str_eq(name, "Boolean") {
        DataType::Boolean
    } else {
        DataType::String
    }
}

/// Reads `ident : ident` as one typed field.
fn parse_field(cs: &Vec<char>, pos: usize) -> (r: Option<(Field, usize)>)
    requires
        pos <= cs@.len(),
    ensures
        match r {
            Some(t) => g_field(cs@, pos as int) == Some((field_view(t.0), t.1 as int))
                && pos < t.1 <= cs@.len(),
            None => g_field(cs@, pos as int) is None,
        },
{
    let (name, p1) = match parse_ident(cs, pos) {
        Some(t) => t,
        None => {
            return None;
        },
    };
    let p2 = match expect_char(cs, p1, ':') {
        Some(p) => p,
        None => {
            return None;
        },
    };
    let (ty, p3) = match parse_ident(cs, p2) {
        Some(t) => t,
        None => {
            return None;
        },
    };
    Some((Field { name, data_type: data_type_of(ty.as_str()) }, p3))
}

/// Reads a comma-separated run of fields up to the closing brace or
/// parenthesis, which is not consumed.
fn parse_fields(cs: &Vec<char>, pos: usize) -> (r: (Vec<Field>, usize))
    requires
        pos <= cs@.len(),
    ensures
        g_fields(cs@, pos as int) == (fields_view(r.0@), r.1 as int),
        pos <= r.1 <= cs@.len(),
    decreases cs@.len() - pos,
{
    let (field, p1) = match parse_field(cs, pos) {
        Some(t) => t,
        None => {
            proof {
                assert(fields_view(Seq::<Field>::empty()) =~= Seq::<FieldV>::empty());
            }
            return (Vec::new(), pos);
        },
    };
    let ghost fv = field_view(field);
    let p2 = match expect_char(cs, p1, ',') {
        Some(p2) => p2,
        None => {
            let mut fields: Vec<Field> = Vec::new();
            fields.push(field);
            proof {
                assert(fields_view(fields@) =~= seq![fv]);
            }
            return (fields, p1);
        },
    };
    let (rest, q) = parse_fields(cs, p2);
    let ghost restv = fields_view(rest@);
    let mut fields = rest;
    fields.insert(0, field);
    proof {
        assert(fields_view(fields@) =~= seq![fv] + restv);
    }
    (fields, q)
}

impl HelixParser {
    /// Reads a whole source file: any number of node schemas, edge
    /// schemas and queries, in any order. `Ok` returns exactly the tree
    /// the grammar defines; `Err` comes exactly on input the grammar
    /// refuses, naming the failing production.
    pub fn parse_source(input: &str) -> (r: Result<Source, ParserError>)
        ensures
            match r {
                Ok(src) => g_source(input@, 0) == Some(source_view(src)),
                Err(_) => g_source(input@, 0) is None,
            },
    {
        let cs = chars_of(input);
        let mut source = Source {
            node_schemas: Vec::new(),
            edge_schemas: Vec::new(),
            queries: Vec::new(),
        };
        proof {
            assert(source_view(source).node_schemas =~= Seq::<NodeSchemaV>::empty());
            assert(source_view(source).edge_schemas =~= Seq::<EdgeSchemaV>::empty());
            assert(source_view(source).queries =~= Seq::<QueryV>::empty());
        }
        let mut pos: usize = 0;
        let n = cs.len();
        loop
            invariant_except_break
                cs@ == input@,
                pos <= cs@.len(),
                n == cs@.len(),
                g_source(cs@, 0) == source_glue(source_view(source), g_source(cs@, pos as int)),
            ensures
                match g_source(cs@, 0) {
                    Some(v) => v == source_view(source),
                    None => false,
                },
            decreases cs@.len() - pos,
        {
            let ghost pos0 = pos as int;
            let b = skip_ws(&cs, pos);
            if b >= cs.len() {
                proof {
                    let empty_src = SourceV {
                        node_schemas: Seq::empty(),
                        edge_schemas: Seq::empty(),
                        queries: Seq::empty(),
                    };
                    assert(g_source(cs@, pos0) == Some(empty_src));
                    lemma_source_glue_empty(source_view(source));
                }
                break;
            }
            let (head, p1) = match parse_ident(&cs, b) {
                Some(t) => t,
                None => {
                    proof {
                        lemma_ident_from_ws(cs@, pos0);
                        lemma_source_fail(cs@, pos0);
                    }
                    return Err(ParserError::LexError(
                        rule_error("an item must begin with an identifier", b),
                    ));
                },
            };
            proof {
                lemma_ident_from_ws(cs@, pos0);
                assert(g_ident(cs@, pos0) == Some((head@, p1 as int)));
            }
            let ghost pre = source_view(source);
            if crate::value::str_eq(head.as_str(), "V") {
                match Self::parse_node_schema(&cs, p1) {
                    Some((schema, p2)) => {
                        let ghost nsv = node_schema_view(schema);
                        source.node_schemas.push(schema);
                        pos = p2;
                        proof {
                            lemma_source_glue_node(pre, nsv, cs@, pos0, p1 as int, p2 as int);
                            assert(source_view(source).node_schemas
                                =~= pre.node_schemas.push(nsv));
                            assert(source_view(source).edge_schemas =~= pre.edge_schemas);
                            assert(source_view(source).queries =~= pre.queries);
                            assert(source_view(source) == push_node(pre, nsv));
                        }
                    },
                    None => {
                        proof {
                            lemma_source_fail(cs@, pos0);
                        }
                        return Err(ParserError::ParseError(
                            rule_error("a node schema does not parse", p1),
                        ));
                    },
                }
            } else if crate::value::str_eq(head.as_str(), "E") {
                match Self::parse_edge_schema(&cs, p1) {
                    Some((schema, p2)) => {
                        let ghost esv = edge_schema_view(schema);
                        source.edge_schemas.push(schema);
                        pos = p2;
                        proof {
                            lemma_source_glue_edge(pre, esv, cs@, pos0, p1 as int, p2 as int);
                            assert(source_view(source).edge_schemas
                                =~= pre.edge_schemas.push(esv));
                            assert(source_view(source).node_schemas =~= pre.node_schemas);
                            assert(source_view(source).queries =~= pre.queries);
                            assert(source_view(source) == push_edge(pre, esv));
                        }
                    },
                    None => {
                        proof {
                            lemma_source_fail(cs@, pos0);
                        }
                        return Err(ParserError::ParseError(
                            rule_error("an edge schema does not parse", p1),
                        ));
                    },
                }
            } else if crate::value::str_eq(head.as_str(), "QUERY") {
                match Self::parse_query(&cs, p1) {
                    Some((query, p2)) => {
                        let ghost qv = query_view(query);
                        source.queries.push(query);
                        pos = p2;
                        proof {
                            lemma_source_glue_query(pre, qv, cs@, pos0, p1 as int, p2 as int);
                            assert(source_view(source).queries =~= pre.queries.push(qv));
                            assert(source_view(source).node_schemas =~= pre.node_schemas);
                            assert(source_view(source).edge_schemas =~= pre.edge_schemas);
                            assert(source_view(source) == push_query(pre, qv));
                        }
                    },
                    None => {
                        proof {
                            lemma_source_fail(cs@, pos0);
                        }
                        return Err(ParserError::ParseError(
                            rule_error("a query does not parse", p1),
                        ));
                    },
                }
            } else {
                proof {
                    lemma_source_fail(cs@, pos0);
                }
                return Err(ParserError::ParseError(
                    rule_error("an item must begin with V, E or QUERY", b),
                ));
            }
        }
        Ok(source)
    }

    /// Reads `:: ident { fields }` after the leading `V`.
    fn parse_node_schema(cs: &Vec<char>, pos: usize) -> (r: Option<(NodeSchema, usize)>)
        requires
            pos <= cs@.len(),
        ensures
            match r {
                Some(t) => g_node_schema(cs@, pos as int)
                    == Some((node_schema_view(t.0), t.1 as int)) && pos < t.1 <= cs@.len(),
                None => g_node_schema(cs@, pos as int) is None,
            },
    {
        let p1 = match expect_char(cs, pos, ':') {
            Some(p) => p,
            None => {
                return None;
            },
        };
        let p2 = match expect_char(cs, p1, ':') {
            Some(p) => p,
            None => {
                return None;
            },
        };
        let (name, p3) = match parse_ident(cs, p2) {
            Some(t) => t,
            None => {
                return None;
            },
        };
        let p4 = match expect_char(cs, p3, '{') {
            Some(p) => p,
            None => {
                return None;
            },
        };
        let (properties, p5) = parse_fields(cs, p4);
        let p6 = match expect_char(cs, p5, '}') {
            Some(p) => p,
            None => {
                return None;
            },
        };
        Some((NodeSchema { name, properties }, p6))
    }

    /// Reads the doubled colon, the name, and the braced `From`, `To`
    /// and optional `Properties` parts after the leading `E`.
    #[verifier::rlimit(100)]
    fn parse_edge_schema(cs: &Vec<char>, pos: usize) -> (r: Option<(EdgeSchema, usize)>)
        requires
            pos <= cs@.len(),
        ensures
            match r {
                Some(t) => g_edge_schema(cs@, pos as int)
                    == Some((edge_schema_view(t.0), t.1 as int)) && pos < t.1 <= cs@.len(),
                None => g_edge_schema(cs@, pos as int) is None,
            },
    {
        let p1 = match expect_char(cs, pos, ':') {
            Some(p) => p,
            None => {
                return None;
            },
        };
        let p2 = match expect_char(cs, p1, ':') {
            Some(p) => p,
            None => {
                return None;
            },
        };
        let (name, p3) = match parse_ident(cs, p2) {
            Some(t) => t,
            None => {
                return None;
            },
        };
        let p4 = match expect_char(cs, p3, '{') {
            Some(p) => p,
            None => {
                return None;
            },
        };
        let (from_kw, p5) = match parse_ident(cs, p4) {
            Some(t) => t,
            None => {
                return None;
            },
        };
        if !crate::value::str_eq(from_kw.as_str(), "From") {
            return None;
        }
        let p6 = match expect_char(cs, p5, ':') {
            Some(p) => p,
            None => {
                return None;
            },
        };
        let (from, p7) = match parse_ident(cs, p6) {
            Some(t) => t,
            None => {
                return None;
            },
        };
        let p8 = match expect_char(cs, p7, ',') {
            Some(p) => p,
            None => {
                return None;
            },
        };
        let (to_kw, p9) = match parse_ident(cs, p8) {
            Some(t) => t,
            None => {
                return None;
            },
        };
        if !crate::value::str_eq(to_kw.as_str(), "To") {
            return None;
        }
        let p10 = match expect_char(cs, p9, ':') {
            Some(p) => p,
            None => {
                return None;
            },
        };
        let (to, p11) = match parse_ident(cs, p10) {
            Some(t) => t,
            None => {
                return None;
            },
        };
        match expect_char(cs, p11, ',') {
            Some(p12) => {
                match parse_ident(cs, p12) {
                    Some((props_kw, p13)) => {
                        if !crate::value::str_eq(props_kw.as_str(), "Properties") {
                            return None;
                        }
                        let p14 = match expect_char(cs, p13, '{') {
                            Some(q) => q,
                            None => {
                                return None;
                            },
                        };
                        let (fields, p15) = parse_fields(cs, p14);
                        let p16 = match expect_char(cs, p15, '}') {
                            Some(q) => q,
                            None => {
                                return None;
                            },
                        };
                        let p17 = match expect_char(cs, p16, '}') {
                            Some(q) => q,
                            None => {
                                return None;
                            },
                        };
                        Some((EdgeSchema { name, from, to, properties: fields }, p17))
                    },
                    None => {
                        // a bare trailing comma before the closing brace
                        let p17 = match expect_char(cs, p12, '}') {
                            Some(q) => q,
                            None => {
                                return None;
                            },
                        };
                        proof {
                            assert(fields_view(Seq::<Field>::empty())
                                =~= Seq::<FieldV>::empty());
                        }
                        Some((EdgeSchema { name, from, to, properties: Vec::new() }, p17))
                    },
                }
            },
            None => {
                let p17 = match expect_char(cs, p11, '}') {
                    Some(q) => q,
                    None => {
                        return None;
                    },
                };
                proof {
                    assert(fields_view(Seq::<Field>::empty()) =~= Seq::<FieldV>::empty());
                }
                Some((EdgeSchema { name, from, to, properties: Vec::new() }, p17))
            },
        }
    }

    /// Reads the `-> ident` chain of a query's traversal.
    fn parse_children(cs: &Vec<char>, pos: usize) -> (r: (Vec<TraversalStep>, usize))
        requires
            pos <= cs@.len(),
        ensures
            ({
                let (children, q) = g_children(cs@, pos as int);
                &&& children == children_view(r.0@)
                &&& q == r.1 as int
            }),
            pos <= r.1 <= cs@.len(),
        decreases cs@.len() - pos,
    {
        let p1 = match expect_char(cs, pos, '-') {
            Some(p) => p,
            None => {
                proof {
                    assert(children_view(Seq::<TraversalStep>::empty())
                        =~= Seq::<TraversalStepV>::empty());
                }
                return (Vec::new(), pos);
            },
        };
        let p2 = match expect_char(cs, p1, '>') {
            Some(p) => p,
            None => {
                proof {
                    assert(children_view(Seq::<TraversalStep>::empty())
                        =~= Seq::<TraversalStepV>::empty());
                }
                return (Vec::new(), pos);
            },
        };
        let (child, p3) = match parse_ident(cs, p2) {
            Some(t) => t,
            None => {
                proof {
                    assert(children_view(Seq::<TraversalStep>::empty())
                        =~= Seq::<TraversalStepV>::empty());
                }
                return (Vec::new(), pos);
            },
        };
        let step = TraversalStep { node: child, filter: None, children: Vec::new() };
        let ghost sv = step_view(step);
        proof {
            assert(sv == TraversalStepV { node: step.node@, filter: None, children: Seq::empty() }) by {
                assert(sv.children =~= Seq::<TraversalStepV>::empty());
            }
        }
        let (rest, q) = Self::parse_children(cs, p3);
        let ghost restv = children_view(rest@);
        let mut children = rest;
        children.insert(0, step);
        proof {
            assert(children_view(children@) =~= seq![sv] + restv);
        }
        (children, q)
    }

    /// Reads `ident ( ( fields ) )? => GET ( ident <- )? (V|E) :: ident
    /// ( -> ident )* RETURN ident` after the leading `QUERY`.
    #[verifier::rlimit(100)]
    fn parse_query(cs: &Vec<char>, pos: usize) -> (r: Option<(Query, usize)>)
        requires
            pos <= cs@.len(),
        ensures
            match r {
                Some(t) => g_query(cs@, pos as int) == Some((query_view(t.0), t.1 as int))
                    && pos < t.1 <= cs@.len(),
                None => g_query(cs@, pos as int) is None,
            },
    {
        let (name, p1) = match parse_ident(cs, pos) {
            Some(t) => t,
            None => {
                return None;
            },
        };
        let mut parameter = String::new();
        let mut pa = p1;
        match expect_char(cs, pa, '(') {
            Some(p2) => {
                let (params, p3) = parse_fields(cs, p2);
                if params.len() > 0 {
                    parameter = first_field_name(&params);
                }
                let p4 = match expect_char(cs, p3, ')') {
                    Some(q) => q,
                    None => {
                        return None;
                    },
                };
                proof {
                    if fields_view(params@).len() > 0 {
                        assert(parameter@ == fields_view(params@)[0].name);
                    }
                }
                pa = p4;
            },
            None => {
            },
        }
        let p5 = match expect_char(cs, pa, '=') {
            Some(q) => q,
            None => {
                return None;
            },
        };
        let p6 = match expect_char(cs, p5, '>') {
            Some(q) => q,
            None => {
                return None;
            },
        };
        let (get_kw, p7) = match parse_ident(cs, p6) {
            Some(t) => t,
            None => {
                return None;
            },
        };
        if !crate::value::str_eq(get_kw.as_str(), "GET") {
            return None;
        }
        let (head, p8) = match parse_ident(cs, p7) {
            Some(t) => t,
            None => {
                return None;
            },
        };
        let mut assignment: Option<String> = None;
        let mut element_name = head;
        let mut p9 = p8;
        match expect_char(cs, p9, '<') {
            Some(p10) => {
                let p11 = match expect_char(cs, p10, '-') {
                    Some(q) => q,
                    None => {
                        return None;
                    },
                };
                let (src_kw, p12) = match parse_ident(cs, p11) {
                    Some(t) => t,
                    None => {
                        return None;
                    },
                };
                assignment = Some(element_name);
                element_name = src_kw;
                p9 = p12;
            },
            None => {
            },
        }
        proof {
            reveal_strlit("V");
            reveal_strlit("E");
            assert("V"@.len() == 1 && "E"@.len() == 1 && "V"@[0] == 'V' && "E"@[0] == 'E');
        }
        let element_type = if crate::value::str_eq(element_name.as_str(), "V") {
            ElementType::V
        } else if crate::value::str_eq(element_name.as_str(), "E") {
            ElementType::E
        } else {
            return None;
        };
        let p13 = match expect_char(cs, p9, ':') {
            Some(q) => q,
            None => {
                return None;
            },
        };
        let p14 = match expect_char(cs, p13, ':') {
            Some(q) => q,
            None => {
                return None;
            },
        };
        let (node, p15) = match parse_ident(cs, p14) {
            Some(t) => t,
            None => {
                return None;
            },
        };
        let (children, p16) = Self::parse_children(cs, p15);
        let (return_kw, p17) = match parse_ident(cs, p16) {
            Some(t) => t,
            None => {
                return None;
            },
        };
        if !crate::value::str_eq(return_kw.as_str(), "RETURN") {
            return None;
        }
        let (return_type, p18) = match parse_ident(cs, p17) {
            Some(t) => t,
            None => {
                return None;
            },
        };
        let query = Query {
            name,
            parameter,
            body: QueryBody {
                assignment,
                element_type,
                traversal: TraversalStep { node, filter: None, children },
            },
            return_type,
        };
        proof {
            assert(step_view(query.body.traversal).children =~= children_view(children@));
        }
        Some((query, p18))
    }
}

/// The character for one decimal digit.
fn digit_char(d: usize) -> (r: char)
    requires
        d < 10,
{
    if d == 0 {
        '0'
    } else if d == 1 {
        '1'
    } else if d == 2 {
        '2'
    } else if d == 3 {
        '3'
    } else if d == 4 {
        '4'
    } else if d == 5 {
        '5'
    } else if d == 6 {
        '6'
    } else if d == 7 {
        '7'
    } else if d == 8 {
        '8'
    } else {
        '9'
    }
}

/// The decimal rendering of a number, for error messages.
fn decimal_string(n: usize) -> (r: String)
{
    if n == 0 {
        return "0".to_owned();
    }
    let mut digits: Vec<char> = Vec::new();
    let mut m = n;
    while m > 0
        decreases m,
    {
        let d = m % 10;
        digits.push(digit_char(d));
        m = m / 10;
    }
    let mut out = String::new();
    let mut i = digits.len();
    while i > 0
        invariant
            i <= digits@.len(),
        decreases i,
    {
        i = i - 1;
        crate::binfmt::push_char(&mut out, digits[i]);
    }
    out
}

/// An error message naming the failing rule and the character position.
fn rule_error(rule: &str, pos: usize) -> (r: String)
{
    let mut msg: String = rule.to_owned();
    msg.append(" at character ");
    msg.append(decimal_string(pos).as_str());
    msg
}

/// The shapes of the chained children, element by element.
pub open spec fn children_view(ts: Seq<TraversalStep>) -> Seq<TraversalStepV> {
    Seq::new(ts.len(), |i: int| step_view(ts[i]))
}

/// The name of the first field of a nonempty list.
fn first_field_name(fields: &Vec<Field>) -> (r: String)
    requires
        fields@.len() > 0,
    ensures
        r@ == fields@[0].name@,
{
    fields[0].name.clone()
}

/// The source built so far, with the remainder's parse appended.
pub open spec fn source_glue(acc: SourceV, rest: Option<SourceV>) -> Option<SourceV> {
    match rest {
        Some(rest) => Some(SourceV {
            node_schemas: acc.node_schemas + rest.node_schemas,
            edge_schemas: acc.edge_schemas + rest.edge_schemas,
            queries: acc.queries + rest.queries,
        }),
        None => None,
    }
}

/// Gluing an empty remainder changes nothing.
proof fn lemma_source_glue_empty(acc: SourceV)
    ensures
        source_glue(acc, Some(SourceV {
            node_schemas: Seq::empty(),
            edge_schemas: Seq::empty(),
            queries: Seq::empty(),
        })) == Some(acc),
{
    assert(acc.node_schemas + Seq::<NodeSchemaV>::empty() =~= acc.node_schemas);
    assert(acc.edge_schemas + Seq::<EdgeSchemaV>::empty() =~= acc.edge_schemas);
    assert(acc.queries + Seq::<QueryV>::empty() =~= acc.queries);
}

/// The accumulator with one more node schema.
pub open spec fn push_node(acc: SourceV, ns: NodeSchemaV) -> SourceV {
    SourceV {
        node_schemas: acc.node_schemas.push(ns),
        edge_schemas: acc.edge_schemas,
        queries: acc.queries,
    }
}

/// The accumulator with one more edge schema.
pub open spec fn push_edge(acc: SourceV, es: EdgeSchemaV) -> SourceV {
    SourceV {
        node_schemas: acc.node_schemas,
        edge_schemas: acc.edge_schemas.push(es),
        queries: acc.queries,
    }
}

/// The accumulator with one more query.
pub open spec fn push_query(acc: SourceV, q: QueryV) -> SourceV {
    SourceV {
        node_schemas: acc.node_schemas,
        edge_schemas: acc.edge_schemas,
        queries: acc.queries.push(q),
    }
}

/// Skipping whitespace twice is skipping it once.
proof fn lemma_ws_idem(s: Seq<char>, pos: int)
    requires
        0 <= pos <= s.len(),
    ensures
        g_ws(s, g_ws(s, pos)) == g_ws(s, pos),
    decreases s.len() - pos,
{
    if 0 <= pos < s.len() && g_ws_char(s[pos]) {
        lemma_ws_idem(s, pos + 1);
    }
}

/// An identifier parses the same from the whitespace-skipped position.
proof fn lemma_ident_from_ws(s: Seq<char>, pos: int)
    requires
        0 <= pos <= s.len(),
    ensures
        g_ident(s, g_ws(s, pos)) == g_ident(s, pos),
{
    lemma_ws_bounds(s, pos);
    lemma_ws_idem(s, pos);
}

/// Consuming a node schema moves it from the remainder to the
/// accumulator.
proof fn lemma_source_glue_node(acc: SourceV, ns: NodeSchemaV, s: Seq<char>, pos: int, p1: int, p2: int)
    requires
        0 <= pos <= s.len(),
        g_ws(s, pos) < s.len(),
        g_ident(s, pos) == Some(("V"@, p1)),
        g_node_schema(s, p1) == Some((ns, p2)),
        p1 < p2 <= s.len(),
    ensures
        source_glue(acc, g_source(s, pos))
            == source_glue(push_node(acc, ns), g_source(s, p2)),
{
    lemma_ident_from_ws(s, pos);
    lemma_ident_bounds(s, pos);
    let b = g_ws(s, pos);
    assert(b < p1 <= s.len());
    match g_source(s, p2) {
        Some(rest) => {
            assert(g_source(s, pos) == Some(SourceV {
                node_schemas: seq![ns] + rest.node_schemas,
                edge_schemas: rest.edge_schemas,
                queries: rest.queries,
            }));
            assert(acc.node_schemas + (seq![ns] + rest.node_schemas)
                =~= acc.node_schemas.push(ns) + rest.node_schemas);
        },
        None => {
            assert(g_source(s, pos) is None);
        },
    }
}

/// Consuming an edge schema moves it from the remainder to the
/// accumulator.
proof fn lemma_source_glue_edge(acc: SourceV, es: EdgeSchemaV, s: Seq<char>, pos: int, p1: int, p2: int)
    requires
        0 <= pos <= s.len(),
        g_ws(s, pos) < s.len(),
        g_ident(s, pos) == Some(("E"@, p1)),
        g_edge_schema(s, p1) == Some((es, p2)),
        p1 < p2 <= s.len(),
    ensures
        source_glue(acc, g_source(s, pos))
            == source_glue(push_edge(acc, es), g_source(s, p2)),
{
    lemma_ident_from_ws(s, pos);
    lemma_ident_bounds(s, pos);
    let b = g_ws(s, pos);
    assert(b < p1 <= s.len());
    reveal_strlit("V");
    reveal_strlit("E");
    assert("V"@.len() == 1 && "E"@.len() == 1);
    assert("V"@[0] == 'V' && "E"@[0] == 'E');
    assert("E"@ != "V"@);
    match g_source(s, p2) {
        Some(rest) => {
            assert(g_source(s, pos) == Some(SourceV {
                node_schemas: rest.node_schemas,
                edge_schemas: seq![es] + rest.edge_schemas,
                queries: rest.queries,
            }));
            assert(acc.edge_schemas + (seq![es] + rest.edge_schemas)
                =~= acc.edge_schemas.push(es) + rest.edge_schemas);
        },
        None => {
            assert(g_source(s, pos) is None);
        },
    }
}

/// Consuming a query moves it from the remainder to the accumulator.
proof fn lemma_source_glue_query(acc: SourceV, q: QueryV, s: Seq<char>, pos: int, p1: int, p2: int)
    requires
        0 <= pos <= s.len(),
        g_ws(s, pos) < s.len(),
        g_ident(s, pos) == Some(("QUERY"@, p1)),
        g_query(s, p1) == Some((q, p2)),
        p1 < p2 <= s.len(),
    ensures
        source_glue(acc, g_source(s, pos))
            == source_glue(push_query(acc, q), g_source(s, p2)),
{
    lemma_ident_from_ws(s, pos);
    lemma_ident_bounds(s, pos);
    let b = g_ws(s, pos);
    assert(b < p1 <= s.len());
    reveal_strlit("V");
    reveal_strlit("E");
    reveal_strlit("QUERY");
    assert("V"@.len() == 1 && "E"@.len() == 1 && "QUERY"@.len() == 5);
    assert("QUERY"@ != "V"@ && "QUERY"@ != "E"@);
    match g_source(s, p2) {
        Some(rest) => {
            assert(g_source(s, pos) == Some(SourceV {
                node_schemas: rest.node_schemas,
                edge_schemas: rest.edge_schemas,
                queries: seq![q] + rest.queries,
            }));
            assert(acc.queries + (seq![q] + rest.queries)
                =~= acc.queries.push(q) + rest.queries);
        },
        None => {
            assert(g_source(s, pos) is None);
        },
    }
}

/// On a failing item, the whole source parse fails.
proof fn lemma_source_fail(s: Seq<char>, pos: int)
    requires
        0 <= pos <= s.len(),
        g_ws(s, pos) < s.len(),
        ({
            ||| g_ident(s, pos) is None
            ||| (g_ident(s, pos) matches Some(t) && {
                ||| (t.0 == "V"@ && g_node_schema(s, t.1) is None)
                ||| (t.0 == "E"@ && g_edge_schema(s, t.1) is None)
                ||| (t.0 == "QUERY"@ && g_query(s, t.1) is None)
                ||| (t.0 != "V"@ && t.0 != "E"@ && t.0 != "QUERY"@)
            })
        }),
    ensures
        g_source(s, pos) is None,
{
    lemma_ident_from_ws(s, pos);
    if g_ident(s, pos) is Some {
        lemma_ident_bounds(s, pos);
    }
    reveal_strlit("V");
    reveal_strlit("E");
    reveal_strlit("QUERY");
    assert("V"@.len() == 1 && "E"@.len() == 1 && "QUERY"@.len() == 5);
    assert("V"@[0] == 'V' && "E"@[0] == 'E');
}

/// A parsed identifier sits after its start and within the text.
proof fn lemma_ident_bounds(s: Seq<char>, pos: int)
    requires
        g_ident(s, pos) is Some,
    ensures
        ({
            let t = g_ident(s, pos).unwrap();
            pos <= g_ws(s, pos) < t.1 <= s.len()
        }),
{
    lemma_ws_bounds(s, pos);
    let b = g_ws(s, pos);
    lemma_ident_end_bounds(s, b);
}

/// Skipping whitespace never moves backwards or past the end.
proof fn lemma_ws_bounds(s: Seq<char>, pos: int)
    requires
        0 <= pos <= s.len(),
    ensures
        pos <= g_ws(s, pos) <= s.len(),
    decreases s.len() - pos,
{
    if 0 <= pos < s.len() && g_ws_char(s[pos]) {
        lemma_ws_bounds(s, pos + 1);
    }
}

/// An identifier run moves strictly forward from an identifier start.
proof fn lemma_ident_end_bounds(s: Seq<char>, b: int)
    requires
        0 <= b < s.len(),
        g_ident_start(s[b]),
    ensures
        b < g_ident_end(s, b) <= s.len(),
{
    lemma_ident_end_mono(s, b + 1);
}

/// The identifier-run end never moves backwards or past the end.
proof fn lemma_ident_end_mono(s: Seq<char>, pos: int)
    requires
        0 <= pos <= s.len(),
    ensures
        pos <= g_ident_end(s, pos) <= s.len(),
    decreases s.len() - pos,
{
    if 0 <= pos < s.len() && g_ident_char(s[pos]) {
        lemma_ident_end_mono(s, pos + 1);
    }
}

} // verus!
