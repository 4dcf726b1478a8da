use vstd::prelude::*;

use crate::faces::faces_alinhadas;
use crate::bytes::{bytes_iguais, copia_bytes, lema_vista_bytes, lema_vista_ids};

verus! {

// ---------------------------------------------------------------------------
// Splitting
// ---------------------------------------------------------------------------

/// The pieces of `s` between occurrences of the byte `sep`, empty pieces
/// included, as `str::split` with a one-character pattern gives them.
pub open spec fn campos(s: Seq<u8>, sep: u8) -> Seq<Seq<u8>>
    decreases s.len(),
{
    if s.len() == 0 {
        seq![Seq::empty()]
    } else {
        let p = campos(s.drop_last(), sep);
        if s.last() == sep {
            p.push(Seq::empty())
        } else {
            p.update(p.len() - 1, p.last().push(s.last()))
        }
    }
}

/// Splitting always gives at least one piece.
pub proof fn lema_campos_nao_vazio(s: Seq<u8>, sep: u8)
    ensures
        campos(s, sep).len() >= 1,
    decreases s.len(),
{
    if s.len() > 0 {
        lema_campos_nao_vazio(s.drop_last(), sep);
    }
}

/// Splits `s[ini..fim]` at every `sep`.
pub fn divide(s: &Vec<u8>, ini: usize, fim: usize, sep: u8) -> (r: Vec<Vec<u8>>)
    requires
        ini <= fim <= s.len(),
    ensures
        r.deep_view() == campos(s@.subrange(ini as int, fim as int), sep),
        r.len() >= 1,
{
    let mut feitos: Vec<Vec<u8>> = Vec::new();
    let mut atual: Vec<u8> = Vec::new();
    let mut i = ini;
    while i < fim
        invariant
            ini <= i <= fim <= s.len(),
            feitos.deep_view().push(atual@) == campos(s@.subrange(ini as int, i as int), sep),
        decreases fim - i,
    {
        let ghost antes = feitos.deep_view().push(atual@);
        assert(s@.subrange(ini as int, i + 1).drop_last() =~= s@.subrange(ini as int, i as int));
        if s[i] == sep {
            proof {
                lema_vista_bytes(&atual);
            }
            feitos.push(atual);
            atual = Vec::new();
            assert(feitos.deep_view().push(atual@) =~= antes.push(Seq::empty()));
        } else {
            atual.push(s[i]);
            assert(feitos.deep_view().push(atual@) =~= antes.update(
                antes.len() - 1,
                antes.last().push(s@[i as int]),
            ));
        }
        i = i + 1;
    }
    let ghost antes = feitos.deep_view();
    proof {
        lema_vista_bytes(&atual);
    }
    feitos.push(atual);
    assert(feitos.deep_view() =~= antes.push(atual@));
    feitos
}

// ---------------------------------------------------------------------------
// Unsigned integers
// ---------------------------------------------------------------------------

/// Whether `b` is an ASCII decimal digit.
pub open spec fn eh_digito(b: u8) -> bool {
    48 <= b <= 57
}

/// The number that the decimal digits `d` write.
pub open spec fn valor_decimal(d: Seq<u8>) -> nat
    decreases d.len(),
{
    if d.len() == 0 {
        0
    } else {
        valor_decimal(d.drop_last()) * 10 + (d.last() - 48) as nat
    }
}

/// The digits of an unsigned-integer token: an optional leading `+` is
/// dropped.
pub open spec fn digitos_de(t: Seq<u8>) -> Seq<u8> {
    if t.len() > 0 && t[0] == 43 {
        t.drop_first()
    } else {
        t
    }
}

/// Whether `t` is a token that `str::parse::<u32>` accepts: an optional `+`,
/// then at least one decimal digit, the whole at most `u32::MAX`.
pub open spec fn u32_valido(t: Seq<u8>) -> bool {
    let d = digitos_de(t);
    &&& d.len() > 0
    &&& forall|i: int| 0 <= i < d.len() ==> eh_digito(#[trigger] d[i])
    &&& valor_decimal(d) <= u32::MAX
}

/// The value of an unsigned-integer token.
pub open spec fn valor_u32(t: Seq<u8>) -> u32 {
    valor_decimal(digitos_de(t)) as u32
}

/// Reads an unsigned 32-bit integer token; `None` exactly where
/// `str::parse::<u32>` fails.
pub fn le_u32(t: &Vec<u8>) -> (r: Option<u32>)
    ensures
        r is Some <==> u32_valido(t@),
        r matches Some(v) ==> v == valor_u32(t@),
{
    let ghost d = digitos_de(t@);
    let mut i: usize = 0;
    if t.len() > 0 && t[0] == 43u8 {
        i = 1;
    }
    let ini = i;
    assert(d =~= t@.subrange(ini as int, t@.len() as int));
    if ini == t.len() {
        return None;
    }
    let limite: u64 = 0xffff_ffff;
    let mut acc: u64 = 0;
    while i < t.len()
        invariant
            ini <= i <= t.len(),
            d == t@.subrange(ini as int, t@.len() as int),
            d == digitos_de(t@),
            limite == u32::MAX,
            forall|j: int| ini <= j < i ==> eh_digito(#[trigger] t@[j]),
            acc == if valor_decimal(t@.subrange(ini as int, i as int)) > limite {
                limite + 1
            } else {
                valor_decimal(t@.subrange(ini as int, i as int)) as int
            },
        decreases t.len() - i,
    {
        let b = t[i];
        if b < 48u8 || b > 57u8 {
            assert(d[i - ini] == t@[i as int]);
            assert(!eh_digito(d[i - ini]));
            return None;
        }
        assert(t@.subrange(ini as int, i + 1).drop_last() =~= t@.subrange(ini as int, i as int));
        if acc <= limite {
            let novo = acc * 10 + (b - 48u8) as u64;
            if novo > limite {
                acc = limite + 1;
            } else {
                acc = novo;
            }
        }
        i = i + 1;
    }
    assert(t@.subrange(ini as int, i as int) =~= d);
    assert forall|j: int| 0 <= j < d.len() implies eh_digito(#[trigger] d[j]) by {
        assert(d[j] == t@[j + ini]);
    }
    if acc > limite {
        None
    } else {
        Some(acc as u32)
    }
}

// ---------------------------------------------------------------------------
// Lines
// ---------------------------------------------------------------------------

/// The index of the first line feed at or after `i`, or the length of `s`
/// where there is none.
pub open spec fn fim_da_linha(s: Seq<u8>, i: int) -> int
    decreases s.len() - i,
{
    if i >= s.len() {
        s.len() as int
    } else if s[i] == 10 {
        i
    } else {
        fim_da_linha(s, i + 1)
    }
}

/// What `fim_da_linha` finds.
pub proof fn lema_fim_da_linha(s: Seq<u8>, i: int)
    requires
        0 <= i <= s.len(),
    ensures
        i <= fim_da_linha(s, i) <= s.len(),
        fim_da_linha(s, i) < s.len() ==> s[fim_da_linha(s, i)] == 10,
        forall|j: int| i <= j < fim_da_linha(s, i) ==> s[j] != 10,
    decreases s.len() - i,
{
    if i < s.len() && s[i] != 10 {
        lema_fim_da_linha(s, i + 1);
    }
}

/// The line that starts at `i` and whose terminator (if any) is at `e`:
/// a carriage return just before a line feed is not part of it.
pub open spec fn linha_em(s: Seq<u8>, i: int, e: int) -> Seq<u8> {
    if e < s.len() && e > i && s[e - 1] == 13 {
        s.subrange(i, e - 1)
    } else {
        s.subrange(i, e)
    }
}

/// The lines of `s` from position `i` on, as `str::lines` gives them: split
/// after every line feed, the line feed and a carriage return before it
/// removed, and no empty line after a final line feed.
pub open spec fn linhas_desde(s: Seq<u8>, i: int) -> Seq<Seq<u8>>
    decreases s.len() + 1 - i,
    via linhas_desde_termina
{
    if i < 0 || i >= s.len() {
        Seq::empty()
    } else {
        let e = fim_da_linha(s, i);
        seq![linha_em(s, i, e)] + linhas_desde(s, e + 1)
    }
}

#[via_fn]
proof fn linhas_desde_termina(s: Seq<u8>, i: int) {
    if 0 <= i < s.len() {
        lema_fim_da_linha(s, i);
    }
}

/// The lines of a text.
pub open spec fn linhas(s: Seq<u8>) -> Seq<Seq<u8>> {
    linhas_desde(s, 0)
}

// ---------------------------------------------------------------------------
// The OBJ model
// ---------------------------------------------------------------------------

/// What a Wavefront OBJ text describes: vertex coordinates and texture
/// coordinates (each kept as the text of its numbers), the last material
/// named, and the faces, each with its vertex ids, texture ids (0 where a
/// corner names none) and the material in use when it was read.
pub struct ModeloObj {
    pub vertices: Seq<Seq<Seq<u8>>>,
    pub texturas: Seq<Seq<Seq<u8>>>,
    pub material: Seq<u8>,
    pub faces: Seq<(Seq<u32>, Seq<u32>, Seq<u8>)>,
}

/// The model of an empty text.
pub open spec fn modelo_vazio() -> ModeloObj {
    ModeloObj {
        vertices: Seq::empty(),
        texturas: Seq::empty(),
        material: Seq::empty(),
        faces: Seq::empty(),
    }
}

pub open spec fn palavra_v() -> Seq<u8> {
    seq![118u8]
}

pub open spec fn palavra_vt() -> Seq<u8> {
    seq![118u8, 116u8]
}

pub open spec fn palavra_f() -> Seq<u8> {
    seq![102u8]
}

pub open spec fn palavra_usemtl() -> Seq<u8> {
    seq![117u8, 115u8, 101u8, 109u8, 116u8, 108u8]
}

pub open spec fn palavra_usemat() -> Seq<u8> {
    seq![117u8, 115u8, 101u8, 109u8, 97u8, 116u8]
}

/// The vertex id that a face corner `v`, `v/t` or `v/t/n` names.
pub open spec fn id_do_vertice(canto: Seq<u8>) -> u32 {
    valor_u32(campos(canto, 47)[0])
}

/// The texture id that a face corner names; 0 where it names none.
pub open spec fn id_da_textura(canto: Seq<u8>) -> u32 {
    let w = campos(canto, 47);
    if w.len() >= 2 && w[1].len() > 0 {
        valor_u32(w[1])
    } else {
        0
    }
}

/// A face corner whose ids can be read.
pub open spec fn canto_valido(canto: Seq<u8>) -> bool {
    let w = campos(canto, 47);
    &&& u32_valido(w[0])
    &&& (w.len() >= 2 && w[1].len() > 0 ==> u32_valido(w[1]))
}

/// A line that can be read: a `v` line has three coordinates, a `vt` line
/// two, every corner of an `f` line is readable and a material line names a
/// material. Whether the coordinates are numbers is not decided here.
pub open spec fn linha_valida(linha: Seq<u8>) -> bool {
    let c = campos(linha, 32);
    &&& c[0] == palavra_v() ==> c.len() >= 4
    &&& c[0] == palavra_vt() ==> c.len() >= 3
    &&& c[0] == palavra_f() ==> forall|k: int| 1 <= k < c.len() ==> canto_valido(#[trigger] c[k])
    &&& (c[0] == palavra_usemtl() || c[0] == palavra_usemat()) ==> c.len() >= 2
}

/// What reading one line does to the model.
pub open spec fn passo(m: ModeloObj, linha: Seq<u8>) -> ModeloObj {
    let c = campos(linha, 32);
    if c[0] == palavra_v() {
        ModeloObj { vertices: m.vertices.push(seq![c[1], c[2], c[3]]), ..m }
    } else if c[0] == palavra_vt() {
        ModeloObj { texturas: m.texturas.push(seq![c[1], c[2]]), ..m }
    } else if c[0] == palavra_f() {
        let cantos = c.drop_first();
        ModeloObj {
            faces: m.faces.push(
                (
                    cantos.map_values(|t: Seq<u8>| id_do_vertice(t)),
                    cantos.map_values(|t: Seq<u8>| id_da_textura(t)),
                    m.material,
                ),
            ),
            ..m
        }
    } else if c[0] == palavra_usemtl() || c[0] == palavra_usemat() {
        ModeloObj { material: c[1], ..m }
    } else {
        m
    }
}

/// Reads a list of lines, one after the other.
pub open spec fn aplica(m: ModeloObj, ls: Seq<Seq<u8>>) -> ModeloObj
    decreases ls.len(),
{
    if ls.len() == 0 {
        m
    } else {
        aplica(passo(m, ls[0]), ls.drop_first())
    }
}

/// The model that an OBJ text describes.
pub open spec fn modelo(s: Seq<u8>) -> ModeloObj {
    aplica(modelo_vazio(), linhas(s))
}

/// Whether every line of a list can be read.
pub open spec fn todas_validas(ls: Seq<Seq<u8>>) -> bool {
    forall|i: int| 0 <= i < ls.len() ==> linha_valida(#[trigger] ls[i])
}

/// Whether every line of an OBJ text can be read.
pub open spec fn obj_valido(s: Seq<u8>) -> bool {
    todas_validas(linhas(s))
}

/// Reading lines keeps every face with as many texture ids as vertex ids.
pub proof fn lema_aplica_alinha(m: ModeloObj, ls: Seq<Seq<u8>>)
    requires
        faces_alinhadas(m.faces),
    ensures
        faces_alinhadas(aplica(m, ls).faces),
    decreases ls.len(),
{
    if ls.len() > 0 {
        let m2 = passo(m, ls[0]);
        assert(faces_alinhadas(m2.faces)) by {
            let c = campos(ls[0], 32);
            if c[0] != palavra_v() && c[0] != palavra_vt() && c[0] == palavra_f() {
                assert forall|f: int| 0 <= f < m2.faces.len() implies (
                #[trigger] m2.faces[f]).0.len() == m2.faces[f].1.len() by {
                    if f < m.faces.len() {
                        assert(m2.faces[f] == m.faces[f]);
                    }
                }
            }
        }
        lema_aplica_alinha(m2, ls.drop_first());
    }
}

/// In the model of any OBJ text every face names as many texture ids as
/// vertex ids: one of each per corner.
pub proof fn lema_modelo_alinhado(s: Seq<u8>)
    ensures
        faces_alinhadas(modelo(s).faces),
{
    lema_aplica_alinha(modelo_vazio(), linhas(s));
}

/// Reading one more line is one more step of reading.
pub proof fn lema_aplica_push(m: ModeloObj, ls: Seq<Seq<u8>>, x: Seq<u8>)
    ensures
        aplica(m, ls.push(x)) == passo(aplica(m, ls), x),
    decreases ls.len(),
{
    if ls.len() > 0 {
        assert(ls.push(x).drop_first() =~= ls.drop_first().push(x));
        assert(ls.push(x)[0] == ls[0]);
        lema_aplica_push(passo(m, ls[0]), ls.drop_first(), x);
    } else {
        assert(ls.push(x).drop_first() =~= Seq::<Seq<u8>>::empty());
        assert(ls.push(x)[0] == x);
        assert(aplica(passo(m, x), Seq::<Seq<u8>>::empty()) == passo(m, x));
    }
}

/// Whether a line starts with the keyword `palavra`.
pub open spec fn comeca_com(linha: Seq<u8>, palavra: Seq<u8>) -> bool {
    campos(linha, 32)[0] == palavra
}

/// The `v` lines of a text, in order.
pub open spec fn linhas_v(s: Seq<u8>) -> Seq<Seq<u8>> {
    linhas(s).filter(|l: Seq<u8>| comeca_com(l, palavra_v()))
}

/// The `vt` lines of a text, in order.
pub open spec fn linhas_vt(s: Seq<u8>) -> Seq<Seq<u8>> {
    linhas(s).filter(|l: Seq<u8>| comeca_com(l, palavra_vt()))
}

/// Fields 1, 2 and 3 (after the keyword) of a line.
pub open spec fn tres_numeros(linha: Seq<u8>) -> Seq<Seq<u8>> {
    let c = campos(linha, 32);
    seq![c[1], c[2], c[3]]
}

/// Fields 1 and 2 (after the keyword) of a line.
pub open spec fn dois_numeros(linha: Seq<u8>) -> Seq<Seq<u8>> {
    let c = campos(linha, 32);
    seq![c[1], c[2]]
}

proof fn lema_aplica_coordenadas(m: ModeloObj, ls: Seq<Seq<u8>>)
    ensures
        aplica(m, ls).vertices == m.vertices + ls.filter(|l: Seq<u8>| comeca_com(l, palavra_v())).map_values(
            |l: Seq<u8>| tres_numeros(l),
        ),
        aplica(m, ls).texturas == m.texturas + ls.filter(|l: Seq<u8>| comeca_com(l, palavra_vt())).map_values(
            |l: Seq<u8>| dois_numeros(l),
        ),
    decreases ls.len(),
{
    let pv = |l: Seq<u8>| comeca_com(l, palavra_v());
    let pt = |l: Seq<u8>| comeca_com(l, palavra_vt());
    let fv = |l: Seq<u8>| tres_numeros(l);
    let ft = |l: Seq<u8>| dois_numeros(l);
    if ls.len() == 0 {
        reveal(Seq::filter);
        assert(ls.filter(pv) =~= Seq::<Seq<u8>>::empty());
        assert(ls.filter(pt) =~= Seq::<Seq<u8>>::empty());
        assert(m.vertices + ls.filter(pv).map_values(fv) =~= m.vertices);
        assert(m.texturas + ls.filter(pt).map_values(ft) =~= m.texturas);
    } else {
        let a = ls.drop_last();
        let x = ls.last();
        lema_aplica_coordenadas(m, a);
        assert(a.push(x) =~= ls);
        lema_aplica_push(m, a, x);
        let ma = aplica(m, a);
        let c = campos(x, 32);
        a.lemma_filter_push(x, pv);
        a.lemma_filter_push(x, pt);
        lema_campos_nao_vazio(x, 32);
        if c[0] == palavra_v() {
            assert(c[0].len() == 1);
            assert(!pt(x));
            assert(a.filter(pv).push(x).map_values(fv) =~= a.filter(pv).map_values(fv).push(fv(x)));
            assert(ma.vertices + a.filter(pv).push(x).map_values(fv) =~= (ma.vertices + a.filter(pv).map_values(fv)).push(fv(x)));
        } else if c[0] == palavra_vt() {
            assert(a.filter(pt).push(x).map_values(ft) =~= a.filter(pt).map_values(ft).push(ft(x)));
        } else {
            assert(!pv(x));
            assert(!pt(x));
        }
        assert(aplica(m, ls).vertices =~= m.vertices + ls.filter(pv).map_values(fv));
        assert(aplica(m, ls).texturas =~= m.texturas + ls.filter(pt).map_values(ft));
    }
}

/// The vertices of a model are, in order, fields 1, 2 and 3 of the text's
/// `v` lines, and its texture coordinates are, in order, fields 1 and 2 of
/// its `vt` lines, whatever further fields (such as a `w`) those lines have.
pub proof fn lema_coordenadas_das_linhas(s: Seq<u8>)
    ensures
        modelo(s).vertices.len() == linhas_v(s).len(),
        forall|i: int| 0 <= i < linhas_v(s).len() ==> #[trigger] modelo(s).vertices[i] == seq![
            campos(linhas_v(s)[i], 32)[1],
            campos(linhas_v(s)[i], 32)[2],
            campos(linhas_v(s)[i], 32)[3],
        ],
        modelo(s).texturas.len() == linhas_vt(s).len(),
        forall|i: int| 0 <= i < linhas_vt(s).len() ==> #[trigger] modelo(s).texturas[i] == seq![
            campos(linhas_vt(s)[i], 32)[1],
            campos(linhas_vt(s)[i], 32)[2],
        ],
{
    lema_aplica_coordenadas(modelo_vazio(), linhas(s));
    assert(modelo(s).vertices =~= linhas_v(s).map_values(|l: Seq<u8>| tres_numeros(l)));
    assert(modelo(s).texturas =~= linhas_vt(s).map_values(|l: Seq<u8>| dois_numeros(l)));
}

// ---------------------------------------------------------------------------
// Reading
// ---------------------------------------------------------------------------

/// A model read from an OBJ text. Coordinates are kept as the bytes of their
/// numbers; turning them into floats is left to the caller.
#[derive(Debug)]
pub struct Objeto {
    pub vertices: Vec<[Vec<u8>; 3]>,
    pub texturas: Vec<[Vec<u8>; 2]>,
    pub material: Vec<u8>,
    pub faces: Vec<(Vec<u32>, Vec<u32>, Vec<u8>)>,
}

impl View for Objeto {
    type V = ModeloObj;

    open spec fn view(&self) -> ModeloObj {
        ModeloObj {
            vertices: self.vertices.deep_view(),
            texturas: self.texturas.deep_view(),
            material: self.material@,
            faces: self.faces.deep_view(),
        }
    }
}

/// Reads the corners of an `f` line into its vertex and texture ids.
fn le_cantos(c: &Vec<Vec<u8>>) -> (r: Option<(Vec<u32>, Vec<u32>)>)
    requires
        c.len() >= 1,
    ensures
        r is Some <==> (forall|k: int| 1 <= k < c.len() ==> canto_valido(#[trigger] c.deep_view()[k])),
        r matches Some(p) ==> {
            &&& p.0@ == c.deep_view().drop_first().map_values(|t: Seq<u8>| id_do_vertice(t))
            &&& p.1@ == c.deep_view().drop_first().map_values(|t: Seq<u8>| id_da_textura(t))
        },
{
    let ghost cs = c.deep_view();
    let ghost cantos = cs.drop_first();
    let mut ids_v: Vec<u32> = Vec::new();
    let mut ids_t: Vec<u32> = Vec::new();
    for k in 1..c.len()
        invariant
            cs == c.deep_view(),
            cantos == cs.drop_first(),
            c.len() >= 1,
            forall|j: int| 1 <= j < k ==> canto_valido(#[trigger] cs[j]),
            ids_v@ == cantos.subrange(0, k - 1).map_values(|t: Seq<u8>| id_do_vertice(t)),
            ids_t@ == cantos.subrange(0, k - 1).map_values(|t: Seq<u8>| id_da_textura(t)),
    {
        let canto = &c[k];
        proof {
            lema_vista_bytes(canto);
        }
        assert(canto@ == cs[k as int]);
        let w = divide(canto, 0, canto.len(), 47);
        assert(canto@.subrange(0, canto@.len() as int) =~= canto@);
        let ghost ws = w.deep_view();
        proof {
            lema_vista_bytes(&w[0]);
        }
        let v = match le_u32(&w[0]) {
            Some(v) => v,
            None => {
                return None;
            },
        };
        let t = if w.len() >= 2 && w[1].len() > 0 {
            proof {
                lema_vista_bytes(&w[1]);
            }
            match le_u32(&w[1]) {
                Some(t) => t,
                None => {
                    return None;
                },
            }
        } else {
            0
        };
        proof {
            if w.len() >= 2 {
                lema_vista_bytes(&w[1]);
            }
        }
        ids_v.push(v);
        ids_t.push(t);
        assert(cantos.subrange(0, k as int) =~= cantos.subrange(0, k - 1).push(cs[k as int]));
        assert(ids_v@ =~= cantos.subrange(0, k as int).map_values(|t: Seq<u8>| id_do_vertice(t)));
        assert(ids_t@ =~= cantos.subrange(0, k as int).map_values(|t: Seq<u8>| id_da_textura(t)));
    }
    assert(cantos.subrange(0, c.len() - 1) =~= cantos);
    Some((ids_v, ids_t))
}

/// Reads the line `s[ini..fim]` into `obj`; false, with `obj` unchanged in
/// what matters, where the line cannot be read.
fn le_linha(obj: &mut Objeto, s: &Vec<u8>, ini: usize, fim: usize) -> (ok: bool)
    requires
        ini <= fim <= s.len(),
    ensures
        ok == linha_valida(s@.subrange(ini as int, fim as int)),
        ok ==> final(obj)@ == passo(old(obj)@, s@.subrange(ini as int, fim as int)),
{
    let ghost linha = s@.subrange(ini as int, fim as int);
    let c = divide(s, ini, fim, 32);
    let ghost cs = c.deep_view();
    assert(cs == campos(linha, 32));
    proof {
        lema_vista_bytes(&c[0]);
    }
    assert(c@[0]@ == cs[0]);
    let p_v = vec![118u8];
    let p_vt = vec![118u8, 116u8];
    let p_f = vec![102u8];
    let p_usemtl = vec![117u8, 115u8, 101u8, 109u8, 116u8, 108u8];
    let p_usemat = vec![117u8, 115u8, 101u8, 109u8, 97u8, 116u8];
    assert(p_v@ =~= palavra_v());
    assert(p_vt@ =~= palavra_vt());
    assert(p_f@ =~= palavra_f());
    assert(p_usemtl@ =~= palavra_usemtl());
    assert(p_usemat@ =~= palavra_usemat());
    if bytes_iguais(&c[0], &p_v) {
        assert(cs[0] =~= palavra_v());
        if c.len() < 4 {
            return false;
        }
        proof {
            lema_vista_bytes(&c[1]);
            lema_vista_bytes(&c[2]);
            lema_vista_bytes(&c[3]);
        }
        let v = [copia_bytes(&c[1]), copia_bytes(&c[2]), copia_bytes(&c[3])];
        let ghost antes = obj.vertices.deep_view();
        obj.vertices.push(v);
        assert(v.deep_view() =~= seq![cs[1], cs[2], cs[3]]);
        assert(obj.vertices.deep_view() =~= antes.push(seq![cs[1], cs[2], cs[3]]));
        return true;
    }
    assert(cs[0] != palavra_v());
    if bytes_iguais(&c[0], &p_vt) {
        assert(cs[0] =~= palavra_vt());
        if c.len() < 3 {
            return false;
        }
        proof {
            lema_vista_bytes(&c[1]);
            lema_vista_bytes(&c[2]);
        }
        let t = [copia_bytes(&c[1]), copia_bytes(&c[2])];
        let ghost antes = obj.texturas.deep_view();
        obj.texturas.push(t);
        assert(t.deep_view() =~= seq![cs[1], cs[2]]);
        assert(obj.texturas.deep_view() =~= antes.push(seq![cs[1], cs[2]]));
        return true;
    }
    assert(cs[0] != palavra_vt());
    if bytes_iguais(&c[0], &p_f) {
        assert(cs[0] =~= palavra_f());
        match le_cantos(&c) {
            Some(ids) => {
                let material = copia_bytes(&obj.material);
                let ghost antes = obj.faces.deep_view();
                let ghost face = (ids.0@, ids.1@, material@);
                proof {
                    lema_vista_ids(&ids.0);
                    lema_vista_ids(&ids.1);
                    lema_vista_bytes(&material);
                }
                obj.faces.push((ids.0, ids.1, material));
                assert(obj.faces.deep_view() =~= antes.push(face));
                return true;
            },
            None => {
                return false;
            },
        }
    }
    assert(cs[0] != palavra_f());
    if bytes_iguais(&c[0], &p_usemtl) || bytes_iguais(&c[0], &p_usemat) {
        assert(cs[0] =~= palavra_usemtl() || cs[0] =~= palavra_usemat());
        if c.len() < 2 {
            return false;
        }
        proof {
            lema_vista_bytes(&c[1]);
        }
        obj.material = copia_bytes(&c[1]);
        return true;
    }
    assert(cs[0] != palavra_usemtl());
    assert(cs[0] != palavra_usemat());
    true
}

/// Reads an OBJ text (the bytes of the file): `None` exactly where some line
/// cannot be read, otherwise the model that the text describes.
pub fn tenta_criar_objeto(dados: &Vec<u8>) -> (r: Option<Objeto>)
    ensures
        r is Some <==> obj_valido(dados@),
        r matches Some(o) ==> o@ == modelo(dados@),
{
    let mut obj = Objeto {
        vertices: Vec::new(),
        texturas: Vec::new(),
        material: Vec::new(),
        faces: Vec::new(),
    };
    assert(obj@.vertices =~= modelo_vazio().vertices);
    assert(obj@.texturas =~= modelo_vazio().texturas);
    assert(obj@.faces =~= modelo_vazio().faces);
    assert(obj@.material =~= modelo_vazio().material);
    let n = dados.len();
    let mut pos: usize = 0;
    while pos < n
        invariant
            n == dados@.len(),
            pos <= n,
            aplica(obj@, linhas_desde(dados@, pos as int)) == modelo(dados@),
            obj_valido(dados@) == todas_validas(linhas_desde(dados@, pos as int)),
        decreases n - pos,
    {
        let mut e = pos;
        while e < n && dados[e] != 10u8
            invariant
                pos <= e <= n,
                n == dados@.len(),
                fim_da_linha(dados@, pos as int) == fim_da_linha(dados@, e as int),
            decreases n - e,
        {
            e = e + 1;
        }
        assert(fim_da_linha(dados@, e as int) == e);
        let fim = if e < n && e > pos && dados[e - 1] == 13u8 {
            e - 1
        } else {
            e
        };
        let ghost linha = linha_em(dados@, pos as int, e as int);
        assert(linha == dados@.subrange(pos as int, fim as int));
        let ghost resto = linhas_desde(dados@, e + 1);
        assert(linhas_desde(dados@, pos as int) == seq![linha] + resto);
        assert((seq![linha] + resto).drop_first() =~= resto);
        assert((seq![linha] + resto)[0] == linha);
        let ok = le_linha(&mut obj, dados, pos, fim);
        if !ok {
            assert(!todas_validas(linhas_desde(dados@, pos as int)));
            return None;
        }
        assert(todas_validas(seq![linha] + resto) == todas_validas(resto)) by {
            if todas_validas(resto) {
                assert forall|i: int| 0 <= i < (seq![linha] + resto).len() implies linha_valida(
                    #[trigger] (seq![linha] + resto)[i],
                ) by {
                    if i > 0 {
                        assert((seq![linha] + resto)[i] == resto[i - 1]);
                    }
                }
            }
            if todas_validas(seq![linha] + resto) {
                assert forall|i: int| 0 <= i < resto.len() implies linha_valida(
                    #[trigger] resto[i],
                ) by {
                    assert((seq![linha] + resto)[i + 1] == resto[i]);
                }
            }
        }
        if e < n {
            pos = e + 1;
        } else {
            assert(resto =~= linhas_desde(dados@, n as int));
            pos = n;
        }
    }
    assert(linhas_desde(dados@, pos as int) =~= Seq::<Seq<u8>>::empty());
    Some(obj)
}

/// Reads an OBJ text whose every line can be read.
pub fn cria_objeto(dados: &Vec<u8>) -> (r: Objeto)
    requires
        obj_valido(dados@),
    ensures
        r@ == modelo(dados@),
{
    tenta_criar_objeto(dados).unwrap()
}

} // verus!
