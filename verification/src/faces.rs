use vstd::prelude::*;
use vstd::arithmetic::div_mod::{lemma_small_mod, lemma_mod_self_0};

use crate::bytes::bytes_iguais;

verus! {

/// The triangle list that `circular_sliding_window_of_three` makes of a
/// polygon given by its corner list `s`: a triangle is kept as it is; any
/// other polygon is closed into a cycle and every window of three consecutive
/// corners of the cycle is emitted, one after the other.
pub open spec fn janela_circular<T>(s: Seq<T>) -> Seq<T> {
    if s.len() == 3 {
        s
    } else {
        Seq::new(
            (3 * (s.len() - 1)) as nat,
            |k: int| s[(k / 3 + k % 3) % (s.len() as int)],
        )
    }
}

/// Expands a polygon into triangle windows (see `janela_circular`).
pub fn circular_sliding_window_of_three<T: Copy>(vector: Vec<T>) -> (r: Vec<T>)
    requires
        vector.len() > 0,
    ensures
        r@ == janela_circular(vector@),
{
    if vector.len() == 3 {
        return vector;
    }
    let n = vector.len();
    let mut circular_arr: Vec<T> = Vec::new();
    for j in 0..n
        invariant
            n == vector.len(),
            circular_arr@ == vector@.subrange(0, j as int),
    {
        circular_arr.push(vector[j]);
    }
    circular_arr.push(vector[0]);
    assert forall|j: int| 0 <= j <= n implies #[trigger] circular_arr@[j] == vector@[j % (n as int)] by {
        if j < n {
            lemma_small_mod(j as nat, n as nat);
        } else {
            lemma_mod_self_0(n as int);
        }
    }
    let mut result: Vec<T> = Vec::new();
    let ghost esperado = janela_circular(vector@);
    for i in 0..(circular_arr.len() - 2)
        invariant
            n == vector.len(),
            n != 3,
            n > 0,
            circular_arr@.len() == n + 1,
            forall|j: int| 0 <= j <= n ==> #[trigger] circular_arr@[j] == vector@[j % (n as int)],
            esperado == janela_circular(vector@),
            result@.len() == 3 * i,
            forall|k: int| 0 <= k < 3 * i ==> #[trigger] result@[k] == esperado[k],
    {
        result.push(circular_arr[i]);
        result.push(circular_arr[i + 1]);
        result.push(circular_arr[i + 2]);
        assert forall|k: int| 0 <= k < 3 * (i + 1) implies #[trigger] result@[k] == esperado[k] by {
            if k >= 3 * i {
                assert(k / 3 == i as int);
                assert(k % 3 == k - 3 * i);
            }
        }
    }
    assert(result@ =~= esperado);
    result
}

/// The items that a list of polygons (each a list of 1-based ids into
/// `itens`) turns into once every polygon is split into triangle windows,
/// polygon after polygon.
pub open spec fn itens_dos_triangulos<V>(itens: Seq<V>, poligonos: Seq<Seq<u32>>) -> Seq<V>
    decreases poligonos.len(),
{
    if poligonos.len() == 0 {
        Seq::empty()
    } else {
        itens_dos_triangulos(itens, poligonos.drop_last()) + janela_circular(
            poligonos.last(),
        ).map_values(|id: u32| itens[id - 1])
    }
}

/// A polygon that can be expanded against a list of `n` items: it has a
/// corner, and every id that its triangle list names is an item of the list
/// (ids count from 1). Ids outside the triangle list are never read: a
/// one-corner polygon gives no triangles and names nothing.
pub open spec fn janela_cabe(poligono: Seq<u32>, n: nat) -> bool {
    &&& poligono.len() > 0
    &&& forall|k: int|
        0 <= k < janela_circular(poligono).len() ==> 1 <= #[trigger] janela_circular(poligono)[k] <= n
}

/// Every polygon of the list can be expanded against `n` items.
pub open spec fn poligonos_validos(poligonos: Seq<Seq<u32>>, n: nat) -> bool {
    forall|f: int| 0 <= f < poligonos.len() ==> #[trigger] janela_cabe(poligonos[f], n)
}

/// The number of items a polygon with `n` corners turns into: a triangle
/// stays three corners, any other polygon gives three per corner but one.
pub open spec fn tamanho_janela(n: nat) -> nat {
    if n == 3 {
        3
    } else {
        (3 * (n - 1)) as nat
    }
}

/// The triangle list of a polygon has `tamanho_janela` items, each of them
/// a corner of the polygon.
pub proof fn lema_janela<T>(s: Seq<T>)
    requires
        s.len() > 0,
    ensures
        janela_circular(s).len() == tamanho_janela(s.len()),
        forall|k: int| 0 <= k < janela_circular(s).len() ==> s.contains(#[trigger] janela_circular(s)[k]),
{
    if s.len() != 3 {
        assert forall|k: int| 0 <= k < janela_circular(s).len() implies s.contains(
            #[trigger] janela_circular(s)[k],
        ) by {
            let n = s.len() as int;
            let j = (k / 3 + k % 3) % n;
            vstd::arithmetic::div_mod::lemma_mod_bound(k / 3 + k % 3, n);
            assert(s[j] == janela_circular(s)[k]);
        }
    } else {
        assert forall|k: int| 0 <= k < janela_circular(s).len() implies s.contains(
            #[trigger] janela_circular(s)[k],
        ) by {
            assert(s[k] == janela_circular(s)[k]);
        }
    }
}

/// The triangles of a polygon with `n` corners other than three: triangle
/// `t`, for `t` from 0 to `n - 2`, is corners `t`, `t + 1` and `t + 2`, the
/// last one wrapping round to corner 0.
pub proof fn lema_triangulos_da_janela<T>(s: Seq<T>, t: int)
    requires
        s.len() > 0,
        s.len() != 3,
        0 <= t < s.len() - 1,
    ensures
        janela_circular(s).len() == 3 * (s.len() - 1),
        janela_circular(s)[3 * t] == s[t],
        janela_circular(s)[3 * t + 1] == s[t + 1],
        janela_circular(s)[3 * t + 2] == if t + 2 < s.len() {
            s[t + 2]
        } else {
            s[0]
        },
{
    let n = s.len() as int;
    assert((3 * t) / 3 == t && (3 * t) % 3 == 0) by (nonlinear_arith)
        requires
            0 <= t,
    ;
    assert((3 * t + 1) / 3 == t && (3 * t + 1) % 3 == 1) by (nonlinear_arith)
        requires
            0 <= t,
    ;
    assert((3 * t + 2) / 3 == t && (3 * t + 2) % 3 == 2) by (nonlinear_arith)
        requires
            0 <= t,
    ;
    lemma_small_mod(t as nat, n as nat);
    lemma_small_mod((t + 1) as nat, n as nat);
    if t + 2 < n {
        lemma_small_mod((t + 2) as nat, n as nat);
    } else {
        lemma_mod_self_0(n);
    }
}

/// The total number of triangle-list items of a list of polygons.
pub open spec fn total_janelas(poligonos: Seq<Seq<u32>>) -> nat
    decreases poligonos.len(),
{
    if poligonos.len() == 0 {
        0
    } else {
        total_janelas(poligonos.drop_last()) + tamanho_janela(poligonos.last().len())
    }
}

/// The items that a list of non-empty polygons gives number
/// `total_janelas`, whatever the items are.
pub proof fn lema_tamanho_itens<V>(itens: Seq<V>, poligonos: Seq<Seq<u32>>)
    requires
        forall|f: int| 0 <= f < poligonos.len() ==> #[trigger] poligonos[f].len() > 0,
    ensures
        itens_dos_triangulos(itens, poligonos).len() == total_janelas(poligonos),
    decreases poligonos.len(),
{
    if poligonos.len() > 0 {
        let p = poligonos.drop_last();
        assert forall|f: int| 0 <= f < p.len() implies #[trigger] p[f].len() > 0 by {
            assert(p[f] == poligonos[f]);
        }
        lema_tamanho_itens(itens, p);
        lema_janela(poligonos.last());
    }
}

/// Where a face's triangle list starts among the items of a list of
/// polygons: after the triangle-list items of every polygon before it.
pub open spec fn inicio_da_face(poligonos: Seq<Seq<u32>>, f: int) -> nat {
    total_janelas(poligonos.subrange(0, f))
}

/// Position `t` of the triangle list of polygon `f` holds the item that the
/// id at that position names (ids count from 1): the expansion of a list of
/// polygons is, polygon after polygon, exactly the items that their triangle
/// windows name.
pub proof fn lema_item_na_posicao<V>(itens: Seq<V>, poligonos: Seq<Seq<u32>>, f: int, t: int)
    requires
        forall|g: int| 0 <= g < poligonos.len() ==> #[trigger] poligonos[g].len() > 0,
        0 <= f < poligonos.len(),
        0 <= t < janela_circular(poligonos[f]).len(),
    ensures
        inicio_da_face(poligonos, f) + t < itens_dos_triangulos(itens, poligonos).len(),
        itens_dos_triangulos(itens, poligonos)[inicio_da_face(poligonos, f) + t] == itens[janela_circular(
            poligonos[f],
        )[t] - 1],
    decreases poligonos.len(),
{
    let p = poligonos.drop_last();
    assert forall|g: int| 0 <= g < p.len() implies #[trigger] p[g].len() > 0 by {
        assert(p[g] == poligonos[g]);
    }
    lema_tamanho_itens(itens, p);
    lema_janela(poligonos.last());
    let a = itens_dos_triangulos(itens, p);
    let w = janela_circular(poligonos.last()).map_values(|id: u32| itens[id - 1]);
    assert(itens_dos_triangulos(itens, poligonos) == a + w);
    if f == poligonos.len() - 1 {
        assert(poligonos.subrange(0, f) =~= p);
        assert((a + w)[a.len() + t] == w[t]);
    } else {
        lema_item_na_posicao(itens, p, f, t);
        assert(p.subrange(0, f) =~= poligonos.subrange(0, f));
        assert(p[f] == poligonos[f]);
        assert((a + w)[inicio_da_face(poligonos, f) + t] == a[inicio_da_face(poligonos, f) + t]);
    }
}

/// Two lists of polygons whose polygons pairwise have as many corners give
/// equally many triangle-list items.
pub proof fn lema_total_igual(a: Seq<Seq<u32>>, b: Seq<Seq<u32>>)
    requires
        a.len() == b.len(),
        forall|f: int| 0 <= f < a.len() ==> #[trigger] a[f].len() == b[f].len(),
    ensures
        total_janelas(a) == total_janelas(b),
    decreases a.len(),
{
    if a.len() > 0 {
        let (pa, pb) = (a.drop_last(), b.drop_last());
        assert forall|f: int| 0 <= f < pa.len() implies #[trigger] pa[f].len() == pb[f].len() by {
            assert(pa[f] == a[f]);
            assert(pb[f] == b[f]);
        }
        lema_total_igual(pa, pb);
    }
}

/// Every face names as many texture ids as vertex ids.
pub open spec fn faces_alinhadas(faces: Seq<(Seq<u32>, Seq<u32>, Seq<u8>)>) -> bool {
    forall|f: int| 0 <= f < faces.len() ==> (#[trigger] faces[f]).0.len() == faces[f].1.len()
}

/// The vertex-id lists of a list of faces.
pub open spec fn ids_de_vertices(faces: Seq<(Seq<u32>, Seq<u32>, Seq<u8>)>) -> Seq<Seq<u32>> {
    faces.map_values(|f: (Seq<u32>, Seq<u32>, Seq<u8>)| f.0)
}

/// The texture-id lists of a list of faces.
pub open spec fn ids_de_texturas(faces: Seq<(Seq<u32>, Seq<u32>, Seq<u8>)>) -> Seq<Seq<u32>> {
    faces.map_values(|f: (Seq<u32>, Seq<u32>, Seq<u8>)| f.1)
}

fn copia_ids(v: &Vec<u32>) -> (r: Vec<u32>)
    ensures
        r@ == v@,
{
    let mut r: Vec<u32> = Vec::new();
    for j in 0..v.len()
        invariant
            r@ == v@.subrange(0, j as int),
    {
        r.push(v[j]);
    }
    assert(r@ =~= v@);
    r
}

fn poligono_cabe(poligono: &Vec<u32>, n: usize) -> (r: bool)
    ensures
        r == janela_cabe(poligono@, n as nat),
{
    if poligono.len() == 0 {
        return false;
    }
    let janela = circular_sliding_window_of_three(copia_ids(poligono));
    for k in 0..janela.len()
        invariant
            janela@ == janela_circular(poligono@),
            forall|j: int| 0 <= j < k ==> 1 <= #[trigger] janela@[j] <= n,
    {
        if janela[k] < 1 || janela[k] as usize > n {
            return false;
        }
    }
    true
}

/// Whether the faces of a model can be expanded against `n_vertices`
/// vertices and `n_texturas` texture coordinates: every face has a corner
/// and every id that its triangle list names is one of them.
pub fn faces_cabem(faces: &Vec<(Vec<u32>, Vec<u32>, Vec<u8>)>, n_vertices: usize, n_texturas: usize) -> (r: bool)
    ensures
        r == (poligonos_validos(ids_de_vertices(faces.deep_view()), n_vertices as nat)
            && poligonos_validos(ids_de_texturas(faces.deep_view()), n_texturas as nat)),
{
    let ghost fv = ids_de_vertices(faces.deep_view());
    let ghost ft = ids_de_texturas(faces.deep_view());
    for f in 0..faces.len()
        invariant
            fv == ids_de_vertices(faces.deep_view()),
            ft == ids_de_texturas(faces.deep_view()),
            poligonos_validos(fv.subrange(0, f as int), n_vertices as nat),
            poligonos_validos(ft.subrange(0, f as int), n_texturas as nat),
    {
        let face = &faces[f];
        assert(face.0@ == fv[f as int]);
        assert(face.1@ == ft[f as int]);
        let ok_v = poligono_cabe(&face.0, n_vertices);
        let ok_t = poligono_cabe(&face.1, n_texturas);
        if !ok_v {
            assert(!poligonos_validos(fv, n_vertices as nat)) by {
                assert(!janela_cabe(fv[f as int], n_vertices as nat));
            }
            return false;
        }
        if !ok_t {
            assert(!poligonos_validos(ft, n_texturas as nat)) by {
                assert(!janela_cabe(ft[f as int], n_texturas as nat));
            }
            return false;
        }
        assert forall|g: int| 0 <= g < f + 1 implies #[trigger] janela_cabe(
            fv.subrange(0, f + 1)[g],
            n_vertices as nat,
        ) by {
            if g < f {
                assert(fv.subrange(0, f + 1)[g] == fv.subrange(0, f as int)[g]);
            }
        }
        assert forall|g: int| 0 <= g < f + 1 implies #[trigger] janela_cabe(
            ft.subrange(0, f + 1)[g],
            n_texturas as nat,
        ) by {
            if g < f {
                assert(ft.subrange(0, f + 1)[g] == ft.subrange(0, f as int)[g]);
            }
        }
    }
    assert(fv.subrange(0, faces.len() as int) =~= fv);
    assert(ft.subrange(0, faces.len() as int) =~= ft);
    true
}

/// Appends to `destino` the items of one polygon's triangle windows.
fn acrescenta_poligono<V: Copy>(itens: &Vec<V>, poligono: &Vec<u32>, destino: &mut Vec<V>)
    requires
        janela_cabe(poligono@, itens.len() as nat),
    ensures
        final(destino)@ == old(destino)@ + janela_circular(poligono@).map_values(
            |id: u32| itens@[id - 1],
        ),
{
    let janela = circular_sliding_window_of_three(copia_ids(poligono));
    let ghost inicio = destino@;
    let ghost alvo = janela@.map_values(|id: u32| itens@[id - 1]);
    for t in 0..janela.len()
        invariant
            janela@ == janela_circular(poligono@),
            alvo == janela@.map_values(|id: u32| itens@[id - 1]),
            forall|k: int| 0 <= k < janela@.len() ==> 1 <= #[trigger] janela@[k] <= itens.len(),
            destino@ == inicio + alvo.subrange(0, t as int),
    {
        let id = janela[t];
        destino.push(itens[(id - 1) as usize]);
        assert(alvo.subrange(0, t + 1) =~= alvo.subrange(0, t as int).push(alvo[t as int]));
    }
    assert(alvo.subrange(0, janela@.len() as int) =~= alvo);
}

/// The list-building core of loading a model: every face of `faces` is
/// split into triangle windows; the vertices those windows name are appended
/// to `lista_de_vertices` and the texture coordinates they name to
/// `lista_de_texturas`. Returns the length that `lista_de_vertices` had before
/// the call and the number of vertices appended.
pub fn acrescenta_faces<V: Copy, T: Copy>(
    vertices: &Vec<V>,
    texturas: &Vec<T>,
    faces: &Vec<(Vec<u32>, Vec<u32>, Vec<u8>)>,
    lista_de_vertices: &mut Vec<V>,
    lista_de_texturas: &mut Vec<T>,
) -> (r: (usize, usize))
    requires
        poligonos_validos(ids_de_vertices(faces.deep_view()), vertices.len() as nat),
        poligonos_validos(ids_de_texturas(faces.deep_view()), texturas.len() as nat),
    ensures
        final(lista_de_vertices)@ == old(lista_de_vertices)@ + itens_dos_triangulos(
            vertices@,
            ids_de_vertices(faces.deep_view()),
        ),
        final(lista_de_texturas)@ == old(lista_de_texturas)@ + itens_dos_triangulos(
            texturas@,
            ids_de_texturas(faces.deep_view()),
        ),
        r.0 == old(lista_de_vertices)@.len(),
        r.1 == itens_dos_triangulos(vertices@, ids_de_vertices(faces.deep_view())).len(),
        r.1 == total_janelas(ids_de_vertices(faces.deep_view())),
        faces_alinhadas(faces.deep_view()) ==> final(lista_de_texturas)@.len() == old(
            lista_de_texturas,
        )@.len() + r.1,
        final(lista_de_vertices)@.len() == old(lista_de_vertices)@.len() + total_janelas(
            ids_de_vertices(faces.deep_view()),
        ),
        final(lista_de_texturas)@.len() == old(lista_de_texturas)@.len() + total_janelas(
            ids_de_texturas(faces.deep_view()),
        ),
        forall|f: int, t: int|
            #![trigger janela_circular(ids_de_vertices(faces.deep_view())[f])[t]]
            0 <= f < faces.len() && 0 <= t < janela_circular(ids_de_vertices(faces.deep_view())[f]).len()
                ==> final(lista_de_vertices)@[old(lista_de_vertices)@.len() + inicio_da_face(
                ids_de_vertices(faces.deep_view()),
                f,
            ) + t] == vertices@[janela_circular(ids_de_vertices(faces.deep_view())[f])[t] - 1],
        forall|f: int, t: int|
            #![trigger janela_circular(ids_de_texturas(faces.deep_view())[f])[t]]
            0 <= f < faces.len() && 0 <= t < janela_circular(ids_de_texturas(faces.deep_view())[f]).len()
                ==> final(lista_de_texturas)@[old(lista_de_texturas)@.len() + inicio_da_face(
                ids_de_texturas(faces.deep_view()),
                f,
            ) + t] == texturas@[janela_circular(ids_de_texturas(faces.deep_view())[f])[t] - 1],
{
    let vertice_inicial = lista_de_vertices.len();
    let ghost fv = ids_de_vertices(faces.deep_view());
    let ghost ft = ids_de_texturas(faces.deep_view());
    let ghost v0 = lista_de_vertices@;
    let ghost t0 = lista_de_texturas@;
    for f in 0..faces.len()
        invariant
            fv == ids_de_vertices(faces.deep_view()),
            ft == ids_de_texturas(faces.deep_view()),
            poligonos_validos(fv, vertices.len() as nat),
            poligonos_validos(ft, texturas.len() as nat),
            vertice_inicial == v0.len(),
            lista_de_vertices@ == v0 + itens_dos_triangulos(vertices@, fv.subrange(0, f as int)),
            lista_de_texturas@ == t0 + itens_dos_triangulos(texturas@, ft.subrange(0, f as int)),
    {
        let face = &faces[f];
        assert(face.0@ == fv[f as int]);
        assert(face.1@ == ft[f as int]);
        assert(janela_cabe(fv[f as int], vertices.len() as nat));
        assert(janela_cabe(ft[f as int], texturas.len() as nat));
        acrescenta_poligono(vertices, &face.0, lista_de_vertices);
        acrescenta_poligono(texturas, &face.1, lista_de_texturas);
        assert(fv.subrange(0, f + 1).drop_last() =~= fv.subrange(0, f as int));
        assert(ft.subrange(0, f + 1).drop_last() =~= ft.subrange(0, f as int));
    }
    assert(fv.subrange(0, faces.len() as int) =~= fv);
    assert(ft.subrange(0, faces.len() as int) =~= ft);
    proof {
        assert forall|f: int| 0 <= f < fv.len() implies #[trigger] fv[f].len() > 0 by {
            assert(janela_cabe(fv[f], vertices.len() as nat));
        }
        assert forall|f: int| 0 <= f < ft.len() implies #[trigger] ft[f].len() > 0 by {
            assert(janela_cabe(ft[f], texturas.len() as nat));
        }
        lema_tamanho_itens(vertices@, fv);
        lema_tamanho_itens(texturas@, ft);
        assert forall|f: int, t: int|
            #![trigger janela_circular(fv[f])[t]]
            0 <= f < fv.len() && 0 <= t < janela_circular(fv[f]).len() implies lista_de_vertices@[v0.len()
                + inicio_da_face(fv, f) + t] == vertices@[janela_circular(fv[f])[t] - 1] by {
            lema_item_na_posicao(vertices@, fv, f, t);
        }
        assert forall|f: int, t: int|
            #![trigger janela_circular(ft[f])[t]]
            0 <= f < ft.len() && 0 <= t < janela_circular(ft[f]).len() implies lista_de_texturas@[t0.len()
                + inicio_da_face(ft, f) + t] == texturas@[janela_circular(ft[f])[t] - 1] by {
            lema_item_na_posicao(texturas@, ft, f, t);
        }
        if faces_alinhadas(faces.deep_view()) {
            lema_total_igual(fv, ft);
        }
    }
    let vertice_final = lista_de_vertices.len();
    (vertice_inicial, vertice_final - vertice_inicial)
}

/// The distinct entries of `s`, each where it first occurs.
pub open spec fn distintos(s: Seq<Seq<u8>>) -> Seq<Seq<u8>>
    decreases s.len(),
{
    if s.len() == 0 {
        Seq::empty()
    } else {
        let p = distintos(s.drop_last());
        if p.contains(s.last()) {
            p
        } else {
            p.push(s.last())
        }
    }
}

/// `distintos` keeps every entry once: nothing twice, nothing lost and
/// nothing added.
pub proof fn lema_distintos(s: Seq<Seq<u8>>)
    ensures
        distintos(s).no_duplicates(),
        forall|x: Seq<u8>| distintos(s).contains(x) <==> s.contains(x),
    decreases s.len(),
{
    if s.len() > 0 {
        let a = s.drop_last();
        lema_distintos(a);
        let p = distintos(a);
        if !p.contains(s.last()) {
            assert forall|i: int, j: int| 0 <= i < j < p.push(s.last()).len() implies p.push(
                s.last(),
            )[i] != p.push(s.last())[j] by {
                if j == p.len() {
                    assert(p[i] == p.push(s.last())[i]);
                }
            }
        }
        let d = distintos(s);
        let l = s.last();
        assert forall|x: Seq<u8>| d.contains(x) <==> s.contains(x) by {
            if s.contains(x) {
                let k = choose|k: int| 0 <= k < s.len() && s[k] == x;
                if k < a.len() {
                    assert(a[k] == x);
                    assert(a.contains(x));
                }
                if p.contains(x) {
                    let i = choose|i: int| 0 <= i < p.len() && p[i] == x;
                    if !p.contains(l) {
                        assert(p.push(l)[i] == x);
                    }
                } else {
                    assert(x == l);
                    assert(p.push(l)[p.len() as int] == x);
                }
                assert(d.contains(x));
            }
            if d.contains(x) {
                if p.contains(x) {
                    assert(a.contains(x));
                    let k = choose|k: int| 0 <= k < a.len() && a[k] == x;
                    assert(s[k] == a[k]);
                } else {
                    assert(!p.contains(l));
                    let k = choose|k: int| 0 <= k < d.len() && d[k] == x;
                    if k < p.len() {
                        assert(p[k] == x);
                    }
                    assert(s[s.len() - 1] == x);
                }
                assert(s.contains(x));
            }
        }
    }
}

/// The materials of a list of faces.
pub open spec fn materiais_de(faces: Seq<(Seq<u32>, Seq<u32>, Seq<u8>)>) -> Seq<Seq<u8>> {
    faces.map_values(|f: (Seq<u32>, Seq<u32>, Seq<u8>)| f.2)
}

fn contem(lista: &Vec<Vec<u8>>, x: &Vec<u8>) -> (r: bool)
    ensures
        r == lista.deep_view().contains(x@),
{
    let ghost d = lista.deep_view();
    for i in 0..lista.len()
        invariant
            d == lista.deep_view(),
            forall|j: int| 0 <= j < i ==> d[j] != x@,
    {
        assert(d[i as int] =~= lista@[i as int]@);
        if bytes_iguais(&lista[i], x) {
            return true;
        }
    }
    false
}

/// The materials that the faces of a model use, each listed once, in the
/// order in which faces first name them.
pub fn materiais_visitados(faces: &Vec<(Vec<u32>, Vec<u32>, Vec<u8>)>) -> (r: Vec<Vec<u8>>)
    ensures
        r.deep_view() == distintos(materiais_de(faces.deep_view())),
{
    let ghost m = materiais_de(faces.deep_view());
    let mut visitados: Vec<Vec<u8>> = Vec::new();
    for f in 0..faces.len()
        invariant
            m == materiais_de(faces.deep_view()),
            visitados.deep_view() == distintos(m.subrange(0, f as int)),
    {
        let material = &faces[f].2;
        assert(material@ == m[f as int]);
        assert(m.subrange(0, f + 1).drop_last() =~= m.subrange(0, f as int));
        if !contem(&visitados, material) {
            let ghost antes = visitados.deep_view();
            visitados.push(material.clone());
            assert(visitados.deep_view() =~= antes.push(m[f as int]));
        }
    }
    assert(m.subrange(0, faces.len() as int) =~= m);
    visitados
}

} // verus!
