//! Caminhos do Windows, como texto.
//!
//! As guardas de escrita e leitura decidem sobre caminhos do Windows (`C:\pasta`,
//! `..\x`, `sub/nota.txt`, `\\servidor\pasta\x`). Este módulo é o modelo desses
//! caminhos: separador `\` ou `/`; prefixo de unidade `X:` ou de rede
//! (`\\servidor\pasta`, e os de dispositivo `\\.\COM1` e verbatim `\\?\C:`); raiz
//! logo depois do prefixo, ou implícita num prefixo de rede; e os componentes `.`,
//! `..` e nomes. Um prefixo verbatim é lido como os outros de rede: absoluto, com
//! raiz, terminando no segundo nome (`\\?\UNC\srv\x` tem prefixo `\\?\UNC`); depois
//! dele, `/`, `.` e `..` valem como em qualquer caminho.
use vstd::prelude::*;

verus! {

/// `\` ou `/`.
pub open spec fn e_sep(c: char) -> bool {
    c == '\\' || c == '/'
}

pub fn sep(c: char) -> (r: bool)
    ensures
        r == e_sep(c),
{
    c == '\\' || c == '/'
}

pub open spec fn e_letra_ascii(c: char) -> bool {
    ('a' <= c && c <= 'z') || ('A' <= c && c <= 'Z')
}

/// A letra de unidade em maiúscula, como o Windows a compara.
pub open spec fn maiuscula_ascii(c: char) -> char {
    if 'a' <= c && c <= 'z' {
        (((c as u8) - 32) as u8) as char
    } else {
        c
    }
}

/// `X:` no começo.
pub open spec fn e_unidade(s: Seq<char>) -> bool {
    s.len() >= 2 && s[1] == ':' && e_letra_ascii(s[0])
}

/// Onde termina o nome que começa em `i`: no primeiro separador, ou no fim.
pub open spec fn fim_nome(s: Seq<char>, i: int) -> int
    decreases s.len() - i,
{
    if i >= s.len() {
        s.len() as int
    } else if e_sep(s[i]) {
        i
    } else {
        fim_nome(s, i + 1)
    }
}

/// Tamanho do prefixo de rede (`\\servidor\pasta`, `\\.\COM1`, `\\?\C:`), ou 0:
/// dois separadores, um nome, um separador e outro nome, que só pode faltar
/// depois de `.` ou `?`.
pub open spec fn len_rede(s: Seq<char>) -> int {
    if s.len() >= 2 && e_sep(s[0]) && e_sep(s[1]) {
        let a = fim_nome(s, 2);
        if a > 2 && a < s.len() {
            let b = fim_nome(s, a + 1);
            if b > a + 1 || (a == 3 && (s[2] == '.' || s[2] == '?')) {
                b
            } else {
                0
            }
        } else {
            0
        }
    } else {
        0
    }
}

/// Tamanho do prefixo: 2 para a unidade, o do prefixo de rede, ou 0.
pub open spec fn len_prefixo(s: Seq<char>) -> int {
    if e_unidade(s) {
        2
    } else {
        len_rede(s)
    }
}

/// Há um separador logo depois do prefixo?
pub open spec fn raiz_fisica(s: Seq<char>) -> bool {
    s.len() > len_prefixo(s) && e_sep(s[len_prefixo(s)])
}

/// `Path::has_root` no Windows: separador logo depois do prefixo, ou um prefixo
/// de rede, que traz a raiz consigo.
pub open spec fn tem_raiz(s: Seq<char>) -> bool {
    raiz_fisica(s) || len_rede(s) > 0
}

/// `Path::is_absolute` no Windows: prefixo e raiz.
pub open spec fn e_absoluto(s: Seq<char>) -> bool {
    len_prefixo(s) > 0 && tem_raiz(s)
}

/// O que vem depois do prefixo e da raiz.
pub open spec fn corpo(s: Seq<char>) -> Seq<char> {
    s.subrange(len_prefixo(s) + if raiz_fisica(s) { 1int } else { 0int }, s.len() as int)
}

/// Como o prefixo se compara: a letra da unidade em maiúscula, ou o prefixo de
/// rede com `\` em todo separador.
pub open spec fn chave_prefixo(s: Seq<char>) -> Seq<char> {
    if e_unidade(s) {
        seq![maiuscula_ascii(s[0]), ':']
    } else {
        s.subrange(0, len_rede(s)).map_values(|c: char| if e_sep(c) { '\\' } else { c })
    }
}

/// Um componente de caminho.
pub enum CompS {
    Prefixo(Seq<char>),
    Raiz,
    Atual,
    Pai,
    Normal(Seq<char>),
}

/// O componente que um pedaço entre separadores vira, se virar algum.
pub open spec fn item(peca: Seq<char>) -> Seq<CompS> {
    if peca.len() == 0 || peca == seq!['.'] {
        seq![]
    } else if peca == seq!['.', '.'] {
        seq![CompS::Pai]
    } else {
        seq![CompS::Normal(peca)]
    }
}

/// Varre `c` a partir de `i`, com os componentes já fechados em `lista` e o pedaço
/// em curso em `atual`.
pub open spec fn varrer(c: Seq<char>, i: int, lista: Seq<CompS>, atual: Seq<char>) -> Seq<CompS>
    decreases c.len() - i,
{
    if i >= c.len() {
        lista + item(atual)
    } else if e_sep(c[i]) {
        varrer(c, i + 1, lista + item(atual), seq![])
    } else {
        varrer(c, i + 1, lista, atual.push(c[i]))
    }
}

/// O `.` que abre um caminho relativo conta como componente.
pub open spec fn atual_inicial(s: Seq<char>) -> bool {
    let c = corpo(s);
    !tem_raiz(s) && c.len() >= 1 && c[0] == '.' && (c.len() == 1 || e_sep(c[1]))
}

/// `Path::components`.
pub open spec fn componentes(s: Seq<char>) -> Seq<CompS> {
    (if len_prefixo(s) > 0 {
        seq![CompS::Prefixo(chave_prefixo(s))]
    } else {
        seq![]
    }) + (if tem_raiz(s) {
        seq![CompS::Raiz]
    } else {
        seq![]
    }) + (if atual_inicial(s) {
        seq![CompS::Atual]
    } else {
        seq![]
    }) + varrer(corpo(s), 0, seq![], seq![])
}

/// `Path::starts_with`: os componentes de `base` abrem os de `s`.
pub open spec fn comeca_em(s: Seq<char>, base: Seq<char>) -> bool {
    let a = componentes(s);
    let b = componentes(base);
    b.len() <= a.len() && a.subrange(0, b.len() as int) == b
}

/// Empilha os componentes: `..` tira o último nome, `.` some, nome entra.
pub open spec fn empilhar(pilha: Seq<Seq<char>>, cs: Seq<CompS>) -> Seq<Seq<char>>
    decreases cs.len(),
{
    if cs.len() == 0 {
        pilha
    } else {
        let p = match cs[0] {
            CompS::Pai => if pilha.len() > 0 {
                pilha.drop_last()
            } else {
                pilha
            },
            CompS::Normal(n) => pilha.push(n),
            _ => pilha,
        };
        empilhar(p, cs.drop_first())
    }
}

/// Os nomes, separados por `\`.
pub open spec fn juntar(ps: Seq<Seq<char>>) -> Seq<char>
    decreases ps.len(),
{
    if ps.len() == 0 {
        seq![]
    } else if ps.len() == 1 {
        ps[0]
    } else {
        juntar(ps.drop_last()) + seq!['\\'] + ps.last()
    }
}

/// O que a normalização vai montando, como o `PathBuf` em que ela empurra os
/// componentes um a um: o prefixo como está no texto, se há raiz, e os pedaços
/// depois dela.
pub type EstadoS = (Seq<char>, bool, Seq<Seq<char>>);

/// Um componente do corpo empurrado no estado. `..` tira o último pedaço, se há
/// um (nunca o prefixo nem a raiz). Um nome que começa como unidade (`a:`, `a:b`)
/// tem prefixo, e por isso toma o lugar de tudo o que havia: fica a unidade, sem
/// raiz, e o resto do nome como pedaço. Outro nome entra no fim.
pub open spec fn passo(e: EstadoS, c: CompS) -> EstadoS {
    match c {
        CompS::Pai => if e.2.len() > 0 {
            (e.0, e.1, e.2.drop_last())
        } else {
            e
        },
        CompS::Normal(n) => if e_unidade(n) {
            (
                n.subrange(0, 2),
                false,
                if n.len() > 2 {
                    seq![n.subrange(2, n.len() as int)]
                } else {
                    seq![]
                },
            )
        } else {
            (e.0, e.1, e.2.push(n))
        },
        _ => e,
    }
}

/// Os componentes empurrados em ordem.
pub open spec fn percorrer(e: EstadoS, cs: Seq<CompS>) -> EstadoS
    decreases cs.len(),
{
    if cs.len() == 0 {
        e
    } else {
        percorrer(passo(e, cs[0]), cs.drop_first())
    }
}

/// O estado ao fim de `normalizar`: começa no prefixo e na raiz do caminho, e
/// recebe os componentes do corpo (o `.` que abre um caminho relativo não conta).
pub open spec fn estado_normalizado(s: Seq<char>) -> EstadoS {
    percorrer((s.subrange(0, len_prefixo(s)), tem_raiz(s), seq![]), varrer(corpo(s), 0, seq![], seq![]))
}

/// O texto de um estado: o prefixo, `\` se há raiz, e os pedaços separados por `\`.
pub open spec fn texto_do_estado(e: EstadoS) -> Seq<char> {
    e.0 + (if e.1 {
        seq!['\\']
    } else {
        seq![]
    }) + juntar(e.2)
}

/// `normalizar`: resolve `.` e `..` só no texto, sem tocar no disco, empurrando
/// componente a componente.
pub open spec fn normalizado(s: Seq<char>) -> Seq<char> {
    texto_do_estado(estado_normalizado(s))
}

/// `PathBuf::join` no Windows.
pub open spec fn juntado(base: Seq<char>, p: Seq<char>) -> Seq<char> {
    if len_prefixo(p) > 0 {
        p
    } else if tem_raiz(p) {
        base.subrange(0, len_prefixo(base)) + p
    } else if base.len() > 0 && !e_sep(base.last()) && !(len_prefixo(base) == 2 && base.len()
        == 2) {
        base + seq!['\\'] + p
    } else {
        base + p
    }
}

// ───────────────────────────── o que a normalização garante

/// Um nome que sobra depois de normalizar: não vazio, sem separador, e nem `.`
/// nem `..`.
pub open spec fn nome_bom(n: Seq<char>) -> bool {
    &&& n.len() > 0
    &&& forall|i: int| 0 <= i < n.len() ==> !e_sep(#[trigger] n[i])
    &&& n != seq!['.']
    &&& n != seq!['.', '.']
}

/// Algum nome da lista começa como unidade (`a:`).
pub open spec fn com_unidade(cs: Seq<CompS>) -> bool
    decreases cs.len(),
{
    cs.len() > 0 && ((cs[0] matches CompS::Normal(n) && e_unidade(n)) || com_unidade(
        cs.drop_first(),
    ))
}

/// Algum nome do corpo de `s` começa como unidade, e a normalização troca de
/// unidade ali (`C:\a:\x` vira `a:x`).
pub open spec fn muda_de_unidade(s: Seq<char>) -> bool {
    com_unidade(varrer(corpo(s), 0, seq![], seq![]))
}

/// Os pedaços do estado são nomes bons e nenhum começa como unidade.
pub open spec fn estado_limpo(e: EstadoS) -> bool {
    forall|k: int| 0 <= k < e.2.len() ==> nome_bom(#[trigger] e.2[k]) && !e_unidade(e.2[k])
}

proof fn lema_varrer_prefixo(c: Seq<char>, i: int, m: Seq<CompS>, l: Seq<CompS>, a: Seq<char>)
    ensures
        varrer(c, i, m + l, a) == m + varrer(c, i, l, a),
    decreases c.len() - i,
{
    if i >= c.len() {
        assert(m + l + item(a) =~= m + (l + item(a)));
    } else if e_sep(c[i]) {
        assert(m + l + item(a) =~= m + (l + item(a)));
        lema_varrer_prefixo(c, i + 1, m, l + item(a), seq![]);
    } else {
        lema_varrer_prefixo(c, i + 1, m, l, a.push(c[i]));
    }
}

proof fn lema_varrer_corte(c: Seq<char>, i: int, j: int, l: Seq<CompS>, a: Seq<char>)
    requires
        0 <= i <= j < c.len(),
        e_sep(c[j]),
    ensures
        varrer(c, i, l, a) == varrer(c, j + 1, varrer(c.take(j), i, l, a), seq![]),
    decreases j - i,
{
    if i < j {
        assert(c.take(j)[i] == c[i]);
        if e_sep(c[i]) {
            lema_varrer_corte(c, i + 1, j, l + item(a), seq![]);
        } else {
            lema_varrer_corte(c, i + 1, j, l, a.push(c[i]));
        }
    }
}

proof fn lema_varrer_desloca(c: Seq<char>, k: int, i: int, l: Seq<CompS>, a: Seq<char>)
    requires
        0 <= k <= i,
        k <= c.len(),
    ensures
        varrer(c, i, l, a) == varrer(c.skip(k), i - k, l, a),
    decreases c.len() - i,
{
    assert(c.skip(k).len() == c.len() - k);
    if i < c.len() {
        assert(c.skip(k)[i - k] == c[i]);
        if e_sep(c[i]) {
            lema_varrer_desloca(c, k, i + 1, l + item(a), seq![]);
        } else {
            lema_varrer_desloca(c, k, i + 1, l, a.push(c[i]));
        }
    }
}

proof fn lema_varrer_nome(n: Seq<char>, i: int, a: Seq<char>)
    requires
        0 <= i <= n.len(),
        forall|k: int| 0 <= k < n.len() ==> !e_sep(#[trigger] n[k]),
    ensures
        varrer(n, i, seq![], a) == item(a + n.subrange(i, n.len() as int)),
    decreases n.len() - i,
{
    if i < n.len() {
        lema_varrer_nome(n, i + 1, a.push(n[i]));
        assert(a.push(n[i]) + n.subrange(i + 1, n.len() as int) =~= a + n.subrange(i, n.len() as int));
    } else {
        assert(a + n.subrange(i, n.len() as int) =~= a);
        assert(Seq::<CompS>::empty() + item(a) =~= item(a));
    }
}

pub open spec fn normais(ps: Seq<Seq<char>>) -> Seq<CompS> {
    ps.map_values(|p: Seq<char>| CompS::Normal(p))
}

proof fn lema_varrer_juntar(ps: Seq<Seq<char>>)
    requires
        forall|k: int| 0 <= k < ps.len() ==> nome_bom(#[trigger] ps[k]),
    ensures
        varrer(juntar(ps), 0, seq![], seq![]) == normais(ps),
        ps.len() > 0 ==> juntar(ps).len() > 0 && juntar(ps)[0] == ps[0][0],
        ps.len() > 0 ==> (juntar(ps).len() >= 2 ==> juntar(ps)[1] == (if ps[0].len() >= 2 { ps[0][1] } else { '\\' })),
    decreases ps.len(),
{
    if ps.len() == 0 {
        assert(varrer(juntar(ps), 0, seq![], seq![]) =~= item(seq![]));
        assert(normais(ps) =~= Seq::<CompS>::empty());
    } else if ps.len() == 1 {
        let n = ps[0];
        lema_varrer_nome(n, 0, seq![]);
        assert(Seq::<char>::empty() + n.subrange(0, n.len() as int) =~= n);
        assert(normais(ps) =~= seq![CompS::Normal(n)]);
    } else {
        let w = ps.drop_last();
        assert forall|k: int| 0 <= k < w.len() implies nome_bom(#[trigger] w[k]) by {
            assert(w[k] == ps[k]);
        }
        lema_varrer_juntar(w);
        let a = juntar(w);
        let n = ps.last();
        assert(nome_bom(ps[ps.len() - 1]));
        let c = a + seq!['\\'] + n;
        assert(juntar(ps) == c);
        let j = a.len() as int;
        assert(c[j] == '\\');
        lema_varrer_corte(c, 0, j, seq![], seq![]);
        assert(c.take(j) =~= a);
        lema_varrer_prefixo(c, j + 1, varrer(a, 0, seq![], seq![]), seq![], seq![]);
        assert(varrer(a, 0, seq![], seq![]) + Seq::<CompS>::empty() =~= varrer(a, 0, seq![], seq![]));
        lema_varrer_desloca(c, j + 1, j + 1, seq![], seq![]);
        assert(c.skip(j + 1) =~= n);
        lema_varrer_nome(n, 0, seq![]);
        assert(Seq::<char>::empty() + n.subrange(0, n.len() as int) =~= n);
        assert(normais(ps) =~= normais(w).push(CompS::Normal(n)));
        assert(normais(w) + seq![CompS::Normal(n)] =~= normais(w).push(CompS::Normal(n)));
        assert(c[0] == a[0]);
        if c.len() >= 2 {
            if a.len() >= 2 {
                assert(c[1] == a[1]);
            } else {
                assert(c[1] == '\\');
                assert(w.len() == 1);
                assert(ps[0] == w[0]);
                assert(a == w[0]);
            }
        }
    }
}

/// Cada componente que `varrer` produz é `..` ou um nome bom.
proof fn lema_varrer_bons(c: Seq<char>, i: int, l: Seq<CompS>, a: Seq<char>)
    requires
        forall|k: int| 0 <= k < l.len() ==> (#[trigger] l[k] matches CompS::Normal(n) ==> nome_bom(n)) && (l[k] is Normal || l[k] is Pai),
        forall|k: int| 0 <= k < a.len() ==> !e_sep(#[trigger] a[k]),
        0 <= i,
    ensures
        forall|k: int| 0 <= k < varrer(c, i, l, a).len() ==> (#[trigger] varrer(c, i, l, a)[k] matches CompS::Normal(n) ==> nome_bom(n)) && (varrer(c, i, l, a)[k] is Normal || varrer(c, i, l, a)[k] is Pai),
    decreases c.len() - i,
{
    let it = item(a);
    assert forall|k: int| 0 <= k < (l + it).len() implies (#[trigger] (l + it)[k] matches CompS::Normal(n) ==> nome_bom(n)) && ((l + it)[k] is Normal || (l + it)[k] is Pai) by {
        if k >= l.len() {
            assert((l + it)[k] == it[k - l.len()]);
        } else {
            assert((l + it)[k] == l[k]);
        }
    }
    if i < c.len() {
        if e_sep(c[i]) {
            lema_varrer_bons(c, i + 1, l + it, seq![]);
        } else {
            let b = a.push(c[i]);
            assert forall|k: int| 0 <= k < b.len() implies !e_sep(#[trigger] b[k]) by {
                if k < a.len() {
                    assert(b[k] == a[k]);
                }
            }
            lema_varrer_bons(c, i + 1, l, b);
        }
    }
}

proof fn lema_empilhar_bons(p: Seq<Seq<char>>, cs: Seq<CompS>)
    requires
        forall|k: int| 0 <= k < p.len() ==> nome_bom(#[trigger] p[k]),
        forall|k: int| 0 <= k < cs.len() ==> (#[trigger] cs[k] matches CompS::Normal(n) ==> nome_bom(n)),
    ensures
        forall|k: int| 0 <= k < empilhar(p, cs).len() ==> nome_bom(#[trigger] empilhar(p, cs)[k]),
    decreases cs.len(),
{
    if cs.len() > 0 {
        let q = match cs[0] {
            CompS::Pai => if p.len() > 0 {
                p.drop_last()
            } else {
                p
            },
            CompS::Normal(n) => p.push(n),
            _ => p,
        };
        assert forall|k: int| 0 <= k < q.len() implies nome_bom(#[trigger] q[k]) by {
            if k < p.len() {
                assert(q[k] == p[k]);
            }
        }
        let r = cs.drop_first();
        assert forall|k: int| 0 <= k < r.len() implies (#[trigger] r[k] matches CompS::Normal(n) ==> nome_bom(n)) by {
            assert(r[k] == cs[k + 1]);
        }
        lema_empilhar_bons(q, r);
        assert(empilhar(p, cs) == empilhar(q, r));
    }
}

proof fn lema_empilhar_normais(p: Seq<Seq<char>>, ps: Seq<Seq<char>>)
    ensures
        empilhar(p, normais(ps)) == p + ps,
    decreases ps.len(),
{
    if ps.len() == 0 {
        assert(p + ps =~= p);
    } else {
        assert(normais(ps)[0] == CompS::Normal(ps[0]));
        assert(normais(ps).drop_first() =~= normais(ps.drop_first()));
        lema_empilhar_normais(p.push(ps[0]), ps.drop_first());
        assert(p.push(ps[0]) + ps.drop_first() =~= p + ps);
    }
}

proof fn lema_fim_nome(s: Seq<char>, i: int, j: int)
    requires
        0 <= i <= j <= s.len(),
        forall|m: int| i <= m < j ==> !e_sep(#[trigger] s[m]),
        j == s.len() || e_sep(s[j]),
    ensures
        fim_nome(s, i) == j,
    decreases j - i,
{
    if i < j {
        lema_fim_nome(s, i + 1, j);
    }
}

proof fn lema_fim_nome_faz(s: Seq<char>, i: int)
    requires
        0 <= i <= s.len(),
    ensures
        i <= fim_nome(s, i) <= s.len(),
        forall|m: int| i <= m < fim_nome(s, i) ==> !e_sep(#[trigger] s[m]),
        fim_nome(s, i) < s.len() ==> e_sep(s[fim_nome(s, i)]),
    decreases s.len() - i,
{
    if i < s.len() && !e_sep(s[i]) {
        lema_fim_nome_faz(s, i + 1);
    }
}

proof fn lema_prefixo_cabe(s: Seq<char>)
    ensures
        0 <= len_rede(s) <= s.len(),
        0 <= len_prefixo(s) <= s.len(),
        len_rede(s) > 0 ==> len_rede(s) >= 4,
{
    if s.len() >= 3 {
        lema_fim_nome_faz(s, 2);
        if fim_nome(s, 2) < s.len() {
            lema_fim_nome_faz(s, fim_nome(s, 2) + 1);
        }
    }
}

/// Um prefixo de rede seguido de separador continua o mesmo prefixo.
proof fn lema_rede_fica(s: Seq<char>, t: Seq<char>)
    requires
        !e_unidade(s),
        len_rede(s) > 0,
        t.len() > len_rede(s),
        t.subrange(0, len_rede(s)) == s.subrange(0, len_rede(s)),
        e_sep(t[len_rede(s)]),
    ensures
        !e_unidade(t),
        len_rede(t) == len_rede(s),
        len_prefixo(t) == len_prefixo(s),
        raiz_fisica(t),
{
    let lp = len_rede(s);
    let a = fim_nome(s, 2);
    lema_fim_nome_faz(s, 2);
    lema_fim_nome_faz(s, a + 1);
    assert forall|m: int| 0 <= m < lp implies t[m] == s[m] by {
        assert(t.subrange(0, lp)[m] == s.subrange(0, lp)[m]);
    }
    assert(t[0] == s[0] && t[1] == s[1]);
    assert forall|m: int| 2 <= m < a implies !e_sep(#[trigger] t[m]) by {
        assert(t[m] == s[m]);
    }
    assert(t[a] == s[a]);
    lema_fim_nome(t, 2, a);
    assert forall|m: int| a + 1 <= m < lp implies !e_sep(#[trigger] t[m]) by {
        assert(t[m] == s[m]);
    }
    lema_fim_nome(t, a + 1, lp);
    if a == 3 {
        assert(t[2] == s[2]);
    }
}

/// Um pedaço não vazio e sem separador.
pub open spec fn sem_sep(n: Seq<char>) -> bool {
    n.len() > 0 && forall|i: int| 0 <= i < n.len() ==> !e_sep(#[trigger] n[i])
}

pub open spec fn pedacos_sem_sep(e: EstadoS) -> bool {
    forall|k: int| 0 <= k < e.2.len() ==> sem_sep(#[trigger] e.2[k])
}

/// O prefixo de um estado é nenhum, uma unidade, ou um prefixo de rede com raiz.
pub open spec fn prefixo_ok(e: EstadoS) -> bool {
    ||| e.0.len() == 0
    ||| e.0.len() == 2 && e_unidade(e.0)
    ||| e.1 && !e_unidade(e.0) && len_rede(e.0) == e.0.len() && e.0.len() > 0
}

proof fn lema_juntar_comeco(ps: Seq<Seq<char>>)
    requires
        ps.len() > 0,
        ps[0].len() > 0,
    ensures
        juntar(ps).len() > 0,
        juntar(ps)[0] == ps[0][0],
        juntar(ps).len() >= 2 ==> juntar(ps)[1] == (if ps[0].len() >= 2 { ps[0][1] } else { '\\' }),
        ps.len() >= 2 ==> juntar(ps).len() >= 2,
    decreases ps.len(),
{
    if ps.len() > 1 {
        let w = ps.drop_last();
        lema_juntar_comeco(w);
        let a = juntar(w);
        let c = a + seq!['\\'] + ps.last();
        assert(juntar(ps) == c);
        assert(c[0] == a[0]);
        if a.len() >= 2 {
            assert(c[1] == a[1]);
        } else {
            assert(c[1] == '\\');
            assert(w.len() == 1);
            assert(a == w[0]);
        }
    }
}

proof fn lema_juntar_sem_sep_no_comeco(ps: Seq<Seq<char>>)
    requires
        ps.len() > 0,
        sem_sep(ps[0]),
    ensures
        juntar(ps).len() > 0,
        !e_sep(juntar(ps)[0]),
        juntar(ps).len() >= 2 && ps[0].len() >= 2 ==> juntar(ps)[1] == ps[0][1],
        juntar(ps).len() >= 2 && ps[0].len() < 2 ==> juntar(ps)[1] == '\\',
{
    lema_juntar_comeco(ps);
    assert(!e_sep(ps[0][0]));
}

proof fn lema_normais_sem_unidade(ps: Seq<Seq<char>>)
    requires
        forall|k: int| 0 <= k < ps.len() ==> !e_unidade(#[trigger] ps[k]),
    ensures
        !com_unidade(normais(ps)),
    decreases ps.len(),
{
    if ps.len() > 0 {
        let r = ps.drop_first();
        assert forall|k: int| 0 <= k < r.len() implies !e_unidade(#[trigger] r[k]) by {
            assert(r[k] == ps[k + 1]);
        }
        lema_normais_sem_unidade(r);
        assert(normais(ps).drop_first() =~= normais(r));
        assert(!e_unidade(ps[0]));
    }
}

/// O que empurrar os componentes de `varrer` faz ao estado.
proof fn lema_percorrer(e: EstadoS, cs: Seq<CompS>)
    requires
        pedacos_sem_sep(e),
        forall|k: int| 0 <= k < cs.len() ==> (#[trigger] cs[k] matches CompS::Normal(n) ==> nome_bom(n)),
    ensures
        pedacos_sem_sep(percorrer(e, cs)),
        com_unidade(cs) ==> percorrer(e, cs).0.len() == 2 && e_unidade(percorrer(e, cs).0)
            && !percorrer(e, cs).1,
        !com_unidade(cs) ==> percorrer(e, cs) == (e.0, e.1, empilhar(e.2, cs)),
        !com_unidade(cs) && estado_limpo(e) ==> estado_limpo(percorrer(e, cs)),
        prefixo_ok(e) ==> prefixo_ok(percorrer(e, cs)),
    decreases cs.len(),
{
    if cs.len() > 0 {
        let e1 = passo(e, cs[0]);
        let r = cs.drop_first();
        assert forall|k: int| 0 <= k < r.len() implies (#[trigger] r[k] matches CompS::Normal(n) ==> nome_bom(n)) by {
            assert(r[k] == cs[k + 1]);
        }
        assert(pedacos_sem_sep(e1)) by {
            match cs[0] {
                CompS::Normal(n) => {
                    assert(nome_bom(n));
                    if e_unidade(n) {
                        if n.len() > 2 {
                            let q = n.subrange(2, n.len() as int);
                            assert forall|i: int| 0 <= i < q.len() implies !e_sep(#[trigger] q[i]) by {
                                assert(q[i] == n[i + 2]);
                            }
                            assert(sem_sep(e1.2[0]));
                        }
                    } else {
                        assert forall|k: int| 0 <= k < e1.2.len() implies sem_sep(#[trigger] e1.2[k]) by {
                            if k < e.2.len() {
                                assert(e1.2[k] == e.2[k]);
                            }
                        }
                    }
                },
                CompS::Pai => {
                    assert forall|k: int| 0 <= k < e1.2.len() implies sem_sep(#[trigger] e1.2[k]) by {
                        assert(e1.2[k] == e.2[k]);
                    }
                },
                _ => {},
            }
        }
        lema_percorrer(e1, r);
        if cs[0] matches CompS::Normal(n) && e_unidade(n) {
            assert(e_unidade(e1.0));
            if !com_unidade(r) {
                assert(percorrer(e1, r).0 == e1.0);
            }
        } else {
            assert(!com_unidade(cs) <==> !com_unidade(r));
            assert(e1 == (e.0, e.1, match cs[0] {
                CompS::Pai => if e.2.len() > 0 {
                    e.2.drop_last()
                } else {
                    e.2
                },
                CompS::Normal(n) => e.2.push(n),
                _ => e.2,
            }));
            if estado_limpo(e) {
                assert forall|k: int| 0 <= k < e1.2.len() implies nome_bom(#[trigger] e1.2[k]) && !e_unidade(e1.2[k]) by {
                    if k < e.2.len() {
                        assert(e1.2[k] == e.2[k]);
                    }
                }
            }
        }
    }
}

/// Um prefixo de rede cortado do caminho continua um prefixo de rede inteiro.
proof fn lema_rede_corte(s: Seq<char>)
    requires
        !e_unidade(s),
        len_rede(s) > 0,
    ensures
        len_rede(s.subrange(0, len_rede(s))) == len_rede(s),
        !e_unidade(s.subrange(0, len_rede(s))),
{
    let lp = len_rede(s);
    let p = s.subrange(0, lp);
    lema_prefixo_cabe(s);
    let a = fim_nome(s, 2);
    lema_fim_nome_faz(s, 2);
    lema_fim_nome_faz(s, a + 1);
    assert forall|m: int| 0 <= m < lp implies p[m] == s[m] by {}
    assert forall|m: int| 2 <= m < a implies !e_sep(#[trigger] p[m]) by {
        assert(p[m] == s[m]);
    }
    assert(p[a] == s[a]);
    lema_fim_nome(p, 2, a);
    assert forall|m: int| a + 1 <= m < lp implies !e_sep(#[trigger] p[m]) by {
        assert(p[m] == s[m]);
    }
    lema_fim_nome(p, a + 1, lp);
    assert(p[0] == s[0] && p[1] == s[1]);
    if a == 3 {
        assert(p[2] == s[2]);
    }
}

/// O estado do começo tem um prefixo aceitável.
proof fn lema_inicio_ok(s: Seq<char>)
    ensures
        prefixo_ok((s.subrange(0, len_prefixo(s)), tem_raiz(s), seq![])),
{
    lema_prefixo_cabe(s);
    if e_unidade(s) {
        assert(s.subrange(0, 2)[0] == s[0] && s.subrange(0, 2)[1] == s[1]);
    } else if len_rede(s) > 0 {
        lema_rede_corte(s);
    }
}

/// Um estado com unidade: o texto tem essa unidade, e tem raiz só se o estado tem.
proof fn lema_texto_unidade(e: EstadoS)
    requires
        e.0.len() == 2,
        e_unidade(e.0),
        pedacos_sem_sep(e),
    ensures
        len_prefixo(texto_do_estado(e)) == 2,
        tem_raiz(texto_do_estado(e)) == e.1,
{
    let t = texto_do_estado(e);
    let j = juntar(e.2);
    assert(t[0] == e.0[0] && t[1] == e.0[1]);
    assert(e_unidade(t));
    if e.1 {
        assert(t[2] == '\\');
    } else if t.len() > 2 {
        assert(e.2.len() > 0);
        assert(sem_sep(e.2[0]));
        lema_juntar_sem_sep_no_comeco(e.2);
        assert(t[2] == j[0]);
    }
}

/// Ler de novo o texto de um estado limpo dá o mesmo estado, sem `.` nem `..`.
proof fn lema_reler(e: EstadoS)
    requires
        prefixo_ok(e),
        estado_limpo(e),
    ensures
        estado_normalizado(texto_do_estado(e)) == e,
        len_prefixo(texto_do_estado(e)) == e.0.len(),
        tem_raiz(texto_do_estado(e)) == e.1,
        forall|k: int| 0 <= k < componentes(texto_do_estado(e)).len() ==> !(#[trigger] componentes(texto_do_estado(e))[k] is Atual) && !(componentes(texto_do_estado(e))[k] is Pai),
{
    let ps = e.2;
    assert forall|k: int| 0 <= k < ps.len() implies nome_bom(#[trigger] ps[k]) by {}
    lema_varrer_juntar(ps);
    let t = texto_do_estado(e);
    let j = juntar(ps);
    let pre = e.0;
    let lp = pre.len() as int;
    let rz: Seq<char> = if e.1 { seq!['\\'] } else { seq![] };
    assert(t == pre + rz + j);
    if ps.len() > 0 {
        assert(nome_bom(ps[0]) && !e_unidade(ps[0]));
    }
    if lp == 2 && e_unidade(pre) {
        assert(pedacos_sem_sep(e)) by {
            assert forall|k: int| 0 <= k < e.2.len() implies sem_sep(#[trigger] e.2[k]) by {
                assert(nome_bom(e.2[k]));
            }
        }
        lema_texto_unidade(e);
        assert(len_rede(t) == 0);
        assert(raiz_fisica(t) == e.1) by {
            if !e.1 && t.len() > 2 {
                assert(t[2] == j[0]);
                assert(j[0] == ps[0][0]);
            }
        }
    } else if lp > 0 {
        assert(t.subrange(0, lp) =~= pre);
        assert(pre.subrange(0, lp) =~= pre);
        assert(t[lp] == '\\');
        lema_rede_fica(pre, t);
    } else {
        assert(pre =~= Seq::<char>::empty());
        if e.1 {
            assert(t[0] == '\\');
            if t.len() > 1 {
                assert(t[1] == j[0]);
                assert(j[0] == ps[0][0]);
            }
            assert(len_prefixo(t) == 0);
        } else {
            assert(t =~= j);
            if t.len() > 0 {
                assert(t[0] == ps[0][0]);
                if t.len() >= 2 {
                    if ps[0].len() >= 2 {
                        assert(t[1] == ps[0][1]);
                    } else {
                        assert(t[1] == '\\');
                    }
                }
            }
            assert(!e_unidade(t));
            assert(len_prefixo(t) == 0);
        }
    }
    assert(len_prefixo(t) == lp);
    assert(tem_raiz(t) == e.1);
    assert(raiz_fisica(t) == (e.1 && t.len() > lp)) by {
        if lp == 0 && !e.1 && t.len() > 0 {
            assert(t[0] == ps[0][0]);
        }
    }
    assert(corpo(t) =~= j) by {
        if e.1 && t.len() == lp {
            assert(false);
        }
    }
    // nenhum `.` abre o corpo
    assert(!atual_inicial(t)) by {
        if !tem_raiz(t) && j.len() >= 1 && j[0] == '.' {
            assert(nome_bom(ps[0]));
            if j.len() == 1 {
                if ps[0].len() >= 2 {
                    assert(j.len() >= 2);
                }
                assert(ps[0].len() == 1);
                assert(ps[0] =~= seq!['.']);
            } else {
                if ps[0].len() >= 2 {
                    assert(!e_sep(ps[0][1]));
                } else {
                    assert(ps[0].len() == 1);
                    assert(ps[0] =~= seq!['.']);
                }
            }
        }
    }
    let cab = (if len_prefixo(t) > 0 {
        seq![CompS::Prefixo(chave_prefixo(t))]
    } else {
        seq![]
    }) + (if tem_raiz(t) {
        seq![CompS::Raiz]
    } else {
        seq![]
    });
    let cs = componentes(t);
    assert(cs =~= cab + seq![] + normais(ps)) by {
        assert(varrer(corpo(t), 0, seq![], seq![]) == normais(ps));
    }
    assert forall|k: int| 0 <= k < cs.len() implies !(#[trigger] cs[k] is Atual) && !(cs[k] is Pai) by {
        if k >= cab.len() {
            assert(cs[k] == normais(ps)[k - cab.len()]);
        }
    }
    // de novo, o mesmo estado
    assert(t.subrange(0, lp) =~= pre);
    lema_normais_sem_unidade(ps);
    assert forall|k: int| 0 <= k < normais(ps).len() implies (#[trigger] normais(ps)[k] matches CompS::Normal(n) ==> nome_bom(n)) by {}
    lema_percorrer((pre, e.1, seq![]), normais(ps));
    lema_empilhar_normais(seq![], ps);
    assert(Seq::<Seq<char>>::empty() + ps =~= ps);
}

/// O que a normalização garante. Nada disso lê o disco: é só texto.
///
/// - É absoluta exatamente quando o caminho era e nenhum nome do meio começa como
///   unidade: um nome assim (`C:\a:\x`) toma o lugar do que vinha antes, e o
///   resultado (`a:x`) é relativo. Caminho relativo nunca vira absoluto.
/// - Sem nome que começa como unidade, o prefixo e a raiz ficam e os pedaços
///   saem limpos.
/// - Com os pedaços limpos, o resultado não tem componente `.` nem `..` (cada `..`
///   tirou o nome anterior, nunca a unidade nem a raiz), e normalizá-lo de novo
///   não muda nada. Um nome como `a:..` ou `a:b:c` no meio deixa `..` ou outra
///   unidade no resultado, e aí nada disso vale.
pub proof fn lei_normalizar_limpa_e_para(s: Seq<char>)
    ensures
        e_absoluto(normalizado(s)) == (e_absoluto(s) && !muda_de_unidade(s)),
        !muda_de_unidade(s) ==> estado_limpo(estado_normalizado(s)) && len_prefixo(normalizado(s))
            == len_prefixo(s) && tem_raiz(normalizado(s)) == tem_raiz(s),
        estado_limpo(estado_normalizado(s)) ==> (forall|k: int| 0 <= k < componentes(normalizado(s)).len() ==> !(#[trigger] componentes(normalizado(s))[k] is Atual) && !(componentes(normalizado(s))[k] is Pai)),
        estado_limpo(estado_normalizado(s)) ==> normalizado(normalizado(s)) == normalizado(s),
{
    let cs = varrer(corpo(s), 0, seq![], seq![]);
    lema_varrer_bons(corpo(s), 0, seq![], seq![]);
    assert forall|k: int| 0 <= k < cs.len() implies (#[trigger] cs[k] matches CompS::Normal(n) ==> nome_bom(n)) by {}
    lema_prefixo_cabe(s);
    let e0: EstadoS = (s.subrange(0, len_prefixo(s)), tem_raiz(s), seq![]);
    lema_inicio_ok(s);
    lema_percorrer(e0, cs);
    let f = estado_normalizado(s);
    let t = normalizado(s);
    if com_unidade(cs) {
        lema_texto_unidade(f);
    } else {
        lema_empilhar_bons(seq![], cs);
        lema_reler(f);
    }
    if estado_limpo(f) {
        lema_reler(f);
    }
}

// ───────────────────────────── execução

/// Um componente de caminho.
#[derive(Debug)]
pub enum Comp {
    Prefixo(Vec<char>),
    Raiz,
    Atual,
    Pai,
    Normal(Vec<char>),
}

impl View for Comp {
    type V = CompS;

    open spec fn view(&self) -> CompS {
        match self {
            Comp::Prefixo(c) => CompS::Prefixo(c@),
            Comp::Raiz => CompS::Raiz,
            Comp::Atual => CompS::Atual,
            Comp::Pai => CompS::Pai,
            Comp::Normal(v) => CompS::Normal(v@),
        }
    }
}

pub open spec fn vista(v: Seq<Comp>) -> Seq<CompS> {
    v.map_values(|c: Comp| c@)
}

fn unidade(s: &[char]) -> (r: bool)
    ensures
        r == e_unidade(s@),
{
    s.len() >= 2 && s[1] == ':' && (('a' <= s[0] && s[0] <= 'z') || ('A' <= s[0] && s[0] <= 'Z'))
}

fn fim_nome_exec(s: &[char], i: usize) -> (r: usize)
    requires
        i <= s.len(),
    ensures
        r == fim_nome(s@, i as int),
{
    let mut k: usize = i;
    while k < s.len() && !sep(s[k])
        invariant
            i <= k <= s.len(),
            fim_nome(s@, i as int) == fim_nome(s@, k as int),
        decreases s.len() - k,
    {
        k = k + 1;
    }
    k
}

fn rede(s: &[char]) -> (r: usize)
    ensures
        r == len_rede(s@),
{
    if s.len() >= 2 && sep(s[0]) && sep(s[1]) {
        let a = fim_nome_exec(s, 2);
        proof {
            lema_fim_nome_faz(s@, 2);
        }
        if a > 2 && a < s.len() {
            let b = fim_nome_exec(s, a + 1);
            if b > a + 1 || (a == 3 && (s[2] == '.' || s[2] == '?')) {
                b
            } else {
                0
            }
        } else {
            0
        }
    } else {
        0
    }
}

pub fn prefixo(s: &[char]) -> (r: usize)
    ensures
        r == len_prefixo(s@),
        r <= s.len(),
{
    if unidade(s) {
        2
    } else {
        let r = rede(s);
        proof {
            if r > 0 {
                lema_fim_nome_faz(s@, 2);
                lema_fim_nome_faz(s@, fim_nome(s@, 2) + 1);
            }
        }
        r
    }
}

fn raiz_logo(s: &[char]) -> (r: bool)
    ensures
        r == raiz_fisica(s@),
{
    let p = prefixo(s);
    s.len() > p && sep(s[p])
}

pub fn raiz(s: &[char]) -> (r: bool)
    ensures
        r == tem_raiz(s@),
{
    raiz_logo(s) || (!unidade(s) && prefixo(s) > 0)
}

/// `Path::is_absolute`.
pub fn absoluto(s: &[char]) -> (r: bool)
    ensures
        r == e_absoluto(s@),
{
    prefixo(s) > 0 && raiz(s)
}

/// O componente do prefixo, como ele se compara.
fn chave_exec(s: &[char]) -> (r: Vec<char>)
    requires
        len_prefixo(s@) > 0,
    ensures
        r@ == chave_prefixo(s@),
{
    let p = prefixo(s);
    let mut r: Vec<char> = Vec::new();
    if unidade(s) {
        let l = s[0];
        let m = if 'a' <= l && l <= 'z' {
            ((l as u8) - 32) as char
        } else {
            l
        };
        r.push(m);
        r.push(':');
        assert(r@ =~= seq![maiuscula_ascii(s@[0]), ':']);
    } else {
        let ghost f = |c: char| if e_sep(c) { '\\' } else { c };
        let mut i: usize = 0;
        while i < p
            invariant
                i <= p <= s.len(),
                p == len_rede(s@),
                f == (|c: char| if e_sep(c) { '\\' } else { c }),
                r@ == s@.subrange(0, i as int).map_values(f),
            decreases p - i,
        {
            let c = s[i];
            r.push(if sep(c) { '\\' } else { c });
            i = i + 1;
            assert(r@ =~= s@.subrange(0, i as int).map_values(f));
        }
    }
    r
}

fn e_ponto(p: &Vec<char>) -> (r: bool)
    ensures
        r == (p@ == seq!['.']),
{
    let r = p.len() == 1 && p[0] == '.';
    proof {
        if p@ == seq!['.'] {
            assert(p@.len() == 1);
        }
        if r {
            assert(p@ =~= seq!['.']);
        }
    }
    r
}

fn e_ponto_ponto(p: &Vec<char>) -> (r: bool)
    ensures
        r == (p@ == seq!['.', '.']),
{
    let r = p.len() == 2 && p[0] == '.' && p[1] == '.';
    proof {
        if p@ == seq!['.', '.'] {
            assert(p@.len() == 2);
        }
        if r {
            assert(p@ =~= seq!['.', '.']);
        }
    }
    r
}

/// Fecha o pedaço em curso, acrescentando o componente que ele vira.
fn fechar(lista: &mut Vec<Comp>, atual: Vec<char>)
    ensures
        vista(final(lista)@) == vista(old(lista)@) + item(atual@),
{
    if atual.len() == 0 || e_ponto(&atual) {
        assert(vista(lista@) =~= vista(lista@) + item(atual@));
    } else if e_ponto_ponto(&atual) {
        lista.push(Comp::Pai);
        assert(vista(lista@) =~= vista(old(lista)@) + item(atual@));
    } else {
        let ghost a = atual@;
        lista.push(Comp::Normal(atual));
        assert(vista(lista@) =~= vista(old(lista)@) + item(a));
    }
}

/// Os componentes de `c[de..]`, pedaço a pedaço.
fn varrer_exec(c: &[char], de: usize) -> (r: Vec<Comp>)
    requires
        de <= c.len(),
    ensures
        vista(r@) == varrer(c@.subrange(de as int, c@.len() as int), 0, seq![], seq![]),
{
    let ghost cc = c@.subrange(de as int, c@.len() as int);
    let mut lista: Vec<Comp> = Vec::new();
    let mut atual: Vec<char> = Vec::new();
    let mut i: usize = de;
    assert(vista(lista@) =~= seq![]);
    while i < c.len()
        invariant
            de <= i <= c.len(),
            cc == c@.subrange(de as int, c@.len() as int),
            varrer(cc, 0, seq![], seq![]) == varrer(cc, i - de, vista(lista@), atual@),
        decreases c.len() - i,
    {
        let ch = c[i];
        assert(cc[i - de] == ch);
        if sep(ch) {
            let a = atual;
            atual = Vec::new();
            fechar(&mut lista, a);
            assert(atual@ =~= seq![]);
        } else {
            atual.push(ch);
        }
        i = i + 1;
    }
    fechar(&mut lista, atual);
    lista
}

/// `Path::components`.
pub fn componentes_exec(s: &[char]) -> (r: Vec<Comp>)
    ensures
        vista(r@) == componentes(s@),
{
    let p = prefixo(s);
    let tr = raiz(s);
    let rf = raiz_logo(s);
    let mut r: Vec<Comp> = Vec::new();
    if p > 0 {
        r.push(Comp::Prefixo(chave_exec(s)));
    }
    if tr {
        r.push(Comp::Raiz);
    }
    let de: usize = if rf {
        p + 1
    } else {
        p
    };
    let ghost c = corpo(s@);
    assert(c =~= s@.subrange(de as int, s@.len() as int));
    let ai = !tr && s.len() >= de + 1 && s[de] == '.' && (s.len() == de + 1 || sep(s[de + 1]));
    if ai {
        r.push(Comp::Atual);
    }
    let ghost cab = vista(r@);
    let resto = varrer_exec(s, de);
    let mut rr = r;
    let mut resto = resto;
    rr.append(&mut resto);
    proof {
        assert(vista(rr@) =~= cab + varrer(c, 0, seq![], seq![]));
        assert(cab =~= (if len_prefixo(s@) > 0 {
            seq![CompS::Prefixo(chave_prefixo(s@))]
        } else {
            seq![]
        }) + (if tem_raiz(s@) {
            seq![CompS::Raiz]
        } else {
            seq![]
        }) + (if atual_inicial(s@) {
            seq![CompS::Atual]
        } else {
            seq![]
        }));
    }
    rr
}

fn mesmo_comp(a: &Comp, b: &Comp) -> (r: bool)
    ensures
        r == (a@ == b@),
{
    match (a, b) {
        (Comp::Prefixo(x), Comp::Prefixo(y)) => crate::texto::iguais(x.as_slice(), y.as_slice()),
        (Comp::Raiz, Comp::Raiz) => true,
        (Comp::Atual, Comp::Atual) => true,
        (Comp::Pai, Comp::Pai) => true,
        (Comp::Normal(x), Comp::Normal(y)) => crate::texto::iguais(x.as_slice(), y.as_slice()),
        _ => false,
    }
}

/// `Path::starts_with`.
pub fn comeca_exec(s: &[char], base: &[char]) -> (r: bool)
    ensures
        r == comeca_em(s@, base@),
{
    let a = componentes_exec(s);
    let b = componentes_exec(base);
    assert(vista(a@).len() == a@.len());
    assert(vista(b@).len() == b@.len());
    if b.len() > a.len() {
        return false;
    }
    let mut i: usize = 0;
    while i < b.len()
        invariant
            i <= b.len() <= a.len(),
            vista(a@) == componentes(s@),
            vista(b@) == componentes(base@),
            vista(a@).len() == a@.len(),
            vista(b@).len() == b@.len(),
            forall|k: int| 0 <= k < i ==> vista(a@)[k] == vista(b@)[k],
        decreases b.len() - i,
    {
        assert(vista(a@)[i as int] == a@[i as int]@);
        assert(vista(b@)[i as int] == b@[i as int]@);
        if !mesmo_comp(&a[i], &b[i]) {
            proof {
                let sa = vista(a@).subrange(0, b@.len() as int);
                assert(sa[i as int] != vista(b@)[i as int]);
                assert(sa != vista(b@));
            }
            return false;
        }
        i = i + 1;
    }
    proof {
        assert(vista(a@).subrange(0, b@.len() as int) =~= vista(b@));
    }
    true
}

proof fn lema_juntar_push(ps: Seq<Seq<char>>, n: Seq<char>)
    requires
        ps.len() > 0,
    ensures
        juntar(ps.push(n)) == juntar(ps) + seq!['\\'] + n,
{
    assert(ps.push(n).drop_last() =~= ps);
}

pub open spec fn vista_pedacos(v: Seq<Vec<char>>) -> Seq<Seq<char>> {
    v.map_values(|x: Vec<char>| x@)
}

/// Resolve `.` e `..` sem tocar no disco (`canonicalize` exige que o arquivo já
/// exista, o que não serve pra checar antes de criar): empurra componente a
/// componente, como num `PathBuf`.
pub fn normalizar_exec(s: &[char]) -> (r: Vec<char>)
    ensures
        r@ == normalizado(s@),
{
    let p = prefixo(s);
    let tr = raiz(s);
    let de: usize = if raiz_logo(s) {
        p + 1
    } else {
        p
    };
    assert(corpo(s@) =~= s@.subrange(de as int, s@.len() as int));
    let cs = varrer_exec(s, de);
    let ghost vcs = vista(cs@);
    let mut pre: Vec<char> = crate::texto::fatia(s, 0, p);
    let mut rz: bool = tr;
    let mut pedacos: Vec<Vec<char>> = Vec::new();
    let mut k: usize = 0;
    assert(vcs.subrange(0, vcs.len() as int) =~= vcs);
    assert(vista_pedacos(pedacos@) =~= Seq::<Seq<char>>::empty());
    while k < cs.len()
        invariant
            k <= cs.len(),
            vcs == vista(cs@),
            vcs.len() == cs.len(),
            estado_normalizado(s@) == percorrer(
                (pre@, rz, vista_pedacos(pedacos@)),
                vcs.subrange(k as int, vcs.len() as int),
            ),
        decreases cs.len() - k,
    {
        let ghost antes = pedacos@;
        let ghost resto = vcs.subrange(k as int, vcs.len() as int);
        assert(resto[0] == cs@[k as int]@);
        assert(resto.drop_first() =~= vcs.subrange(k + 1, vcs.len() as int));
        match &cs[k] {
            Comp::Pai => {
                if pedacos.len() > 0 {
                    pedacos.pop();
                    assert(vista_pedacos(pedacos@) =~= vista_pedacos(antes).drop_last());
                }
            },
            Comp::Normal(v) => {
                if unidade(v.as_slice()) {
                    pre = crate::texto::fatia(v.as_slice(), 0, 2);
                    rz = false;
                    pedacos = Vec::new();
                    if v.len() > 2 {
                        pedacos.push(crate::texto::fatia(v.as_slice(), 2, v.len()));
                        assert(vista_pedacos(pedacos@) =~= seq![v@.subrange(2, v@.len() as int)]);
                    } else {
                        assert(vista_pedacos(pedacos@) =~= Seq::<Seq<char>>::empty());
                    }
                } else {
                    pedacos.push(crate::texto::fatia(v.as_slice(), 0, v.len()));
                    assert(v@.subrange(0, v@.len() as int) =~= v@);
                    assert(vista_pedacos(pedacos@) =~= vista_pedacos(antes).push(v@));
                }
            },
            _ => {},
        }
        k = k + 1;
    }
    let ghost fim = estado_normalizado(s@);
    assert(vcs.subrange(cs.len() as int, vcs.len() as int) =~= seq![]);
    let ghost nomes = vista_pedacos(pedacos@);
    assert(fim == (pre@, rz, nomes));
    let mut r: Vec<char> = Vec::new();
    crate::texto::acrescentar_vec(&mut r, pre.as_slice());
    if rz {
        r.push('\\');
    }
    let ghost cab = r@;
    let mut q: usize = 0;
    assert(nomes.take(0) =~= Seq::<Seq<char>>::empty());
    assert(r@ =~= cab + juntar(nomes.take(0)));
    while q < pedacos.len()
        invariant
            q <= pedacos.len(),
            nomes.len() == pedacos.len(),
            nomes == vista_pedacos(pedacos@),
            r@ == cab + juntar(nomes.take(q as int)),
        decreases pedacos.len() - q,
    {
        if q > 0 {
            r.push('\\');
        }
        crate::texto::acrescentar_vec(&mut r, pedacos[q].as_slice());
        proof {
            assert(nomes[q as int] == pedacos@[q as int]@);
            assert(nomes.take(q + 1) =~= nomes.take(q as int).push(nomes[q as int]));
            if q > 0 {
                lema_juntar_push(nomes.take(q as int), nomes[q as int]);
            } else {
                assert(nomes.take(1) =~= seq![nomes[0]]);
            }
        }
        q = q + 1;
    }
    assert(nomes.take(pedacos.len() as int) =~= nomes);
    r
}

/// `PathBuf::join`.
pub fn juntar_exec(base: &[char], p: &[char]) -> (r: Vec<char>)
    ensures
        r@ == juntado(base@, p@),
{
    let mut r: Vec<char> = Vec::new();
    if prefixo(p) > 0 {
        crate::texto::acrescentar_vec(&mut r, p);
    } else if raiz(p) {
        let lp = prefixo(base);
        let cab = crate::texto::fatia(base, 0, lp);
        crate::texto::acrescentar_vec(&mut r, cab.as_slice());
        crate::texto::acrescentar_vec(&mut r, p);
    } else {
        crate::texto::acrescentar_vec(&mut r, base);
        if base.len() > 0 && !sep(base[base.len() - 1]) && !(prefixo(base) == 2 && base.len()
            == 2) {
            r.push('\\');
        }
        crate::texto::acrescentar_vec(&mut r, p);
    }
    r
}

} // verus!
