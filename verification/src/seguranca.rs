//! Guardas de segurança para ações que tocam o mundo.
//!
//! Três camadas, e nenhuma delas confia na anterior:
//!
//! 1. **Modo.** Em [`Modo::Sandbox`] nenhuma ação com efeito colateral acontece —
//!    a ferramenta devolve a descrição do que *faria*.
//! 2. **Denylist.** Padrões destrutivos são recusados mesmo em modo real.
//! 3. **Raiz permitida.** A **escrita** fica confinada a uma pasta. Execução não:
//!    lançar processo não é operação de caminho; quem controla processo é
//!    `Politica::processos`.
//!
//! A denylist é uma rede, não uma prova: o que garante segurança de verdade é o
//! modo sandbox ser o padrão e a raiz permitida ser estreita.
use vstd::prelude::*;
use crate::caminho::{
    absoluto, comeca_em, comeca_exec, e_absoluto, juntado, juntar_exec, normalizado,
    normalizar_exec,
};
use crate::texto::{
    acrescentar_str, caracteres, caracteres_de, contem, contem_exec, copiar, empurrar,
    minusculas, para_minusculas, string_de,
};

verus! {

#[derive(Clone, Copy, Debug, PartialEq, Eq, Structural)]
pub enum Modo {
    /// Nada que altere o mundo acontece de verdade. **Padrão.**
    Sandbox,
    /// Executa, sujeito à denylist e à raiz permitida.
    Real,
}

impl Default for Modo {
    fn default() -> (r: Self)
        ensures
            r == Modo::Sandbox,
    {
        Modo::Sandbox
    }
}

/// Fragmentos que nunca passam, em minúsculas. Comparados por substring — grosseiro
/// de propósito: um falso positivo custa uma recusa, um falso negativo custa um
/// disco.
pub open spec fn proibidos() -> Seq<Seq<char>> {
    seq![
        "format "@,
        "mkfs"@,
        "diskpart"@,
        "shutdown"@,
        "reg delete"@,
        "reg add"@,
        "rmdir /s"@,
        "rd /s"@,
        "del /s"@,
        "del /q"@,
        "rm -rf"@,
        "rm -fr"@,
        ":(){"@,
        "vssadmin"@,
        "bcdedit"@,
        "cipher /w"@,
        "takeown"@,
        "icacls"@,
        "net user"@,
        "schtasks"@,
        "wmic process call create"@,
        "powershell -enc"@,
        "invoke-expression"@,
        "iex("@,
        "curl "@,
        "wget "@,
        "certutil -urlcache"@,
    ]
}

pub fn lista_proibidos() -> (v: Vec<&'static str>)
    ensures
        v@.len() == proibidos().len(),
        forall|i: int| 0 <= i < v@.len() ==> v@[i]@ == proibidos()[i],
{
    vec![
        "format ",
        "mkfs",
        "diskpart",
        "shutdown",
        "reg delete",
        "reg add",
        "rmdir /s",
        "rd /s",
        "del /s",
        "del /q",
        "rm -rf",
        "rm -fr",
        ":(){",
        "vssadmin",
        "bcdedit",
        "cipher /w",
        "takeown",
        "icacls",
        "net user",
        "schtasks",
        "wmic process call create",
        "powershell -enc",
        "invoke-expression",
        "iex(",
        "curl ",
        "wget ",
        "certutil -urlcache",
    ]
}

#[derive(Clone, Debug)]
pub enum Recusa {
    Destrutivo(String),
    ForaDaRaiz(String),
    CaminhoInvalido(String),
}

impl Recusa {
    /// A mensagem que a recusa mostra.
    pub fn mensagem(&self) -> (r: String)
        ensures
            r@ == match self {
                Recusa::Destrutivo(p) => "recusado: comando contém padrão destrutivo (\""@ + p@
                    + "\")"@,
                Recusa::ForaDaRaiz(c) => "recusado: "@ + c@ + " está fora da raiz permitida"@,
                Recusa::CaminhoInvalido(c) => "recusado: caminho inválido ("@ + c@ + ")"@,
            },
    {
        let mut s = String::new();
        match self {
            Recusa::Destrutivo(p) => {
                acrescentar_str(&mut s, "recusado: comando contém padrão destrutivo (\"");
                acrescentar_str(&mut s, p.as_str());
                acrescentar_str(&mut s, "\")");
            },
            Recusa::ForaDaRaiz(c) => {
                acrescentar_str(&mut s, "recusado: ");
                acrescentar_str(&mut s, c.as_str());
                acrescentar_str(&mut s, " está fora da raiz permitida");
            },
            Recusa::CaminhoInvalido(c) => {
                acrescentar_str(&mut s, "recusado: caminho inválido (");
                acrescentar_str(&mut s, c.as_str());
                acrescentar_str(&mut s, ")");
            },
        }
        s
    }
}

#[derive(Clone, Debug)]
pub struct Politica {
    pub modo: Modo,
    /// **Escrita** fica confinada aqui. `None` = nenhuma escrita permitida.
    ///
    /// A raiz confina caminho, e só: lançar um processo não é uma operação de
    /// caminho. Quem controla isso é [`Politica::processos`].
    pub raiz: Option<String>,
    /// Teto de bytes lidos de um arquivo, pra um `ler_arquivo` não engolir a RAM.
    pub max_leitura: usize,
    /// Pode lançar processo — `abrir_programa` e `executar_comando`? **O padrão é
    /// `false`**: só [`Politica::real_em`] liga.
    pub processos: bool,
    /// Nome da área de trabalho onde os processos nascem. `None` = a do usuário.
    pub tela: Option<String>,
}

/// Teto padrão de leitura: 256 KB.
pub const MAX_LEITURA_PADRAO: usize = 262144;

impl Default for Politica {
    fn default() -> (r: Self)
        ensures
            r.modo == Modo::Sandbox,
            r.raiz is None,
            r.max_leitura == MAX_LEITURA_PADRAO,
            !r.processos,
            r.tela is None,
    {
        Politica {
            modo: Modo::Sandbox,
            raiz: None,
            max_leitura: MAX_LEITURA_PADRAO,
            processos: false,
            tela: None,
        }
    }
}

/// `str::contains` sobre o texto em minúsculas: o primeiro padrão proibido que
/// aparece, na ordem da lista.
pub open spec fn primeiro_proibido(baixo: Seq<char>, i: int) -> bool {
    0 <= i < proibidos().len() && contem(baixo, proibidos()[i]) && forall|k: int|
        0 <= k < i ==> !contem(baixo, proibidos()[k])
}

/// Onde a escrita em `caminho` cai, já normalizada, quando há uma raiz.
pub open spec fn alvo_de_escrita(raiz: Seq<char>, caminho: Seq<char>) -> Seq<char> {
    normalizado(
        if e_absoluto(caminho) {
            caminho
        } else {
            juntado(raiz, caminho)
        },
    )
}

/// Onde uma leitura de `caminho` cai sob a política: com raiz, um caminho relativo
/// e não vazio vai para dentro dela; o resto fica como veio.
pub open spec fn caminho_de_leitura(pol: Politica, caminho: Seq<char>) -> Seq<char> {
    match pol.raiz {
        Some(raiz) => if !e_absoluto(caminho) && caminho.len() > 0 {
            juntado(raiz@, caminho)
        } else {
            caminho
        },
        None => caminho,
    }
}

impl Politica {
    pub fn real_em(raiz: &str) -> (r: Self)
        ensures
            r.modo == Modo::Real,
            r.raiz matches Some(x) && x@ == raiz@,
            r.max_leitura == MAX_LEITURA_PADRAO,
            r.processos,
            r.tela is None,
    {
        Politica {
            modo: Modo::Real,
            raiz: Some(copiar(raiz)),
            max_leitura: MAX_LEITURA_PADRAO,
            processos: true,
            tela: None,
        }
    }

    /// A mesma coisa, mas sem poder lançar processo: para o laço de prática, onde
    /// quem escolhe a ferramenta é um modelo explorando por sorteio.
    pub fn real_sem_processos(raiz: &str) -> (r: Self)
        ensures
            r.modo == Modo::Real,
            r.raiz matches Some(x) && x@ == raiz@,
            r.max_leitura == MAX_LEITURA_PADRAO,
            !r.processos,
            r.tela is None,
    {
        Politica { processos: false, ..Self::real_em(raiz) }
    }

    /// Processos permitidos, mas nascendo numa área de trabalho separada.
    pub fn real_em_tela(raiz: &str, tela: &str) -> (r: Self)
        ensures
            r.modo == Modo::Real,
            r.raiz matches Some(x) && x@ == raiz@,
            r.max_leitura == MAX_LEITURA_PADRAO,
            r.processos,
            r.tela matches Some(t) && t@ == tela@,
    {
        Politica { tela: Some(copiar(tela)), ..Self::real_em(raiz) }
    }

    /// Recusa o comando que contém, em minúsculas, algum padrão destrutivo.
    pub fn checar_comando(&self, cmd: &str) -> (r: Result<(), Recusa>)
        ensures
            r is Ok <==> forall|i: int|
                0 <= i < proibidos().len() ==> !contem(minusculas(cmd@), proibidos()[i]),
            r matches Err(e) ==> exists|i: int|
                primeiro_proibido(minusculas(cmd@), i) && (e matches Recusa::Destrutivo(p)
                    && p@ == proibidos()[i]),
    {
        let baixo = para_minusculas(cmd);
        let b = caracteres_de(&baixo);
        let ps = lista_proibidos();
        let mut i: usize = 0;
        while i < ps.len()
            invariant
                i <= ps.len(),
                b@ == minusculas(cmd@),
                ps@.len() == proibidos().len(),
                forall|k: int| 0 <= k < ps@.len() ==> ps@[k]@ == proibidos()[k],
                forall|k: int| 0 <= k < i ==> !contem(b@, proibidos()[k]),
            decreases ps.len() - i,
        {
            let p = caracteres(ps[i]);
            if contem_exec(b.as_slice(), p.as_slice()) {
                let e = Recusa::Destrutivo(copiar(ps[i]));
                assert(primeiro_proibido(b@, i as int));
                return Err(e);
            }
            i = i + 1;
        }
        Ok(())
    }

    /// Resolve um caminho de **leitura** contra a raiz, quando há uma.
    ///
    /// Caminho relativo vai para dentro da raiz, como a escrita; caminho absoluto
    /// continua passando. A raiz é limite de escrita e execução, não de leitura.
    pub fn resolver_leitura(&self, caminho: &str) -> (r: String)
        ensures
            r@ == caminho_de_leitura(*self, caminho@),
            r@ == match self.raiz {
                Some(raiz) => if !e_absoluto(caminho@) && caminho@.len() > 0 {
                    juntado(raiz@, caminho@)
                } else {
                    caminho@
                },
                None => caminho@,
            },
    {
        let c = caracteres(caminho);
        match &self.raiz {
            Some(raiz) => {
                if !absoluto(c.as_slice()) && c.len() > 0 {
                    let rz = caracteres_de(raiz);
                    let j = juntar_exec(rz.as_slice(), c.as_slice());
                    string_de(j.as_slice())
                } else {
                    string_de(c.as_slice())
                }
            },
            None => string_de(c.as_slice()),
        }
    }

    /// A raiz, ou o diretório atual quando não há uma.
    pub fn raiz_ou_atual(&self) -> (r: String)
        ensures
            r@ == match self.raiz {
                Some(raiz) => raiz@,
                None => seq!['.'],
            },
    {
        match &self.raiz {
            Some(raiz) => raiz.clone(),
            None => {
                let mut s = String::new();
                empurrar(&mut s, '.');
                s
            },
        }
    }

    /// Verifica que `caminho` cai dentro da raiz permitida, e devolve o caminho
    /// normalizado.
    ///
    /// Normaliza `..` **antes** de comparar. Sem isso, `raiz/../../Windows`
    /// passaria por um prefixo ingênuo.
    pub fn checar_escrita(&self, caminho: &str) -> (r: Result<String, Recusa>)
        ensures
            match self.raiz {
                None => r matches Err(Recusa::ForaDaRaiz(c)) && c@ == caminho@,
                Some(raiz) => {
                    let alvo = alvo_de_escrita(raiz@, caminho@);
                    if comeca_em(alvo, normalizado(raiz@)) {
                        r matches Ok(c) && c@ == alvo
                    } else {
                        r matches Err(Recusa::ForaDaRaiz(c)) && c@ == alvo
                    }
                },
            },
    {
        match &self.raiz {
            None => Err(Recusa::ForaDaRaiz(copiar(caminho))),
            Some(raiz) => {
                let c = caracteres(caminho);
                let rz = caracteres_de(raiz);
                let absoluto_ = if absoluto(c.as_slice()) {
                    c
                } else {
                    juntar_exec(rz.as_slice(), c.as_slice())
                };
                let limpo = normalizar_exec(absoluto_.as_slice());
                let raiz_limpa = normalizar_exec(rz.as_slice());
                let s = string_de(limpo.as_slice());
                if comeca_exec(limpo.as_slice(), raiz_limpa.as_slice()) {
                    Ok(s)
                } else {
                    Err(Recusa::ForaDaRaiz(s))
                }
            },
        }
    }
}

/// Resolve `.` e `..` sem tocar no disco (`canonicalize` exige que o arquivo já
/// exista, o que não serve pra checar antes de criar).
pub fn normalizar(p: &str) -> (r: String)
    ensures
        r@ == normalizado(p@),
{
    let c = caracteres(p);
    let n = normalizar_exec(c.as_slice());
    string_de(n.as_slice())
}

} // verus!
