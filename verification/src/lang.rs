//! UI translations. Every user-visible string goes through [`tr`] with its
//! English text as the key; missing translations fall back to English, so a
//! partially-translated language never breaks the UI.
//!
//! Templates with dynamic parts use `{0}`, `{1}`, … placeholders filled by
//! [`tr_fmt`], so each language can order the parts freely.
use vstd::prelude::*;

use crate::text::{dec, push_dec, replace_all, replace_exec, str_eq, string_of, to_chars};

verus! {

broadcast use vstd::std_specs::vec::group_vec_axioms, vstd::seq::group_seq_axioms;

/// GUI language. English is the default.
#[derive(Debug, Clone, Copy, PartialEq, Eq, Structural)]
pub enum Language {
    English,
    Russian,
    German,
    French,
    Spanish,
    Italian,
    Portuguese,
    Polish,
    Ukrainian,
    Turkish,
    Chinese,
    Japanese,
    Korean,
}

impl Default for Language {
    fn default() -> (r: Language)
        ensures
            r == Language::English,
    {
        Language::English
    }
}

pub open spec fn all_languages() -> Seq<Language> {
    seq![Language::English, Language::Russian, Language::German, Language::French, Language::Spanish, Language::Italian, Language::Portuguese, Language::Polish, Language::Ukrainian, Language::Turkish, Language::Chinese, Language::Japanese, Language::Korean]
}

impl Language {
    /// All languages, in picker order.
    pub fn all() -> (r: Vec<Language>)
        ensures
            r@ == all_languages(),
    {
        let r = vec![Language::English, Language::Russian, Language::German, Language::French, Language::Spanish, Language::Italian, Language::Portuguese, Language::Polish, Language::Ukrainian, Language::Turkish, Language::Chinese, Language::Japanese, Language::Korean];
        assert(r@ =~= all_languages());
        r
    }

    pub open spec fn label_spec(self) -> Seq<char> {
        match self {
            Language::English => "English"@,
            Language::Russian => "Русский"@,
            Language::German => "Deutsch"@,
            Language::French => "Français"@,
            Language::Spanish => "Español"@,
            Language::Italian => "Italiano"@,
            Language::Portuguese => "Português"@,
            Language::Polish => "Polski"@,
            Language::Ukrainian => "Українська"@,
            Language::Turkish => "Türkçe"@,
            Language::Chinese => "中文"@,
            Language::Japanese => "日本語"@,
            Language::Korean => "한국어"@,
        }
    }

    /// Native name shown in the language picker.
    pub fn label(self) -> (r: &'static str)
        ensures
            r@ == self.label_spec(),
    {
        match self {
            Language::English => "English",
            Language::Russian => "Русский",
            Language::German => "Deutsch",
            Language::French => "Français",
            Language::Spanish => "Español",
            Language::Italian => "Italiano",
            Language::Portuguese => "Português",
            Language::Polish => "Polski",
            Language::Ukrainian => "Українська",
            Language::Turkish => "Türkçe",
            Language::Chinese => "中文",
            Language::Japanese => "日本語",
            Language::Korean => "한국어",
        }
    }
}

/// The English keys that have translations.
pub open spec fn translated_keys() -> Seq<Seq<char>> {
    seq!["Save settings"@, "Cancel"@, "Confirm"@, "Launch"@, "Download"@, "Delete"@, "Refresh"@, "Settings"@, "Accounts"@, "Language"@]
}

/// The translations of [`translated_keys`] in a language other than English.
pub open spec fn translations(lang: Language) -> Seq<Seq<char>> {
    match lang {
        Language::English => translated_keys(),
        Language::Russian => seq!["Сохранить настройки"@, "Отмена"@, "Подтвердить"@, "Запустить"@, "Скачать"@, "Удалить"@, "Обновить"@, "Настройки"@, "Аккаунты"@, "Язык"@],
        Language::German => seq!["Einstellungen speichern"@, "Abbrechen"@, "Bestätigen"@, "Starten"@, "Herunterladen"@, "Löschen"@, "Aktualisieren"@, "Einstellungen"@, "Konten"@, "Sprache"@],
        Language::French => seq!["Enregistrer les paramètres"@, "Annuler"@, "Confirmer"@, "Lancer"@, "Télécharger"@, "Supprimer"@, "Actualiser"@, "Paramètres"@, "Comptes"@, "Langue"@],
        Language::Spanish => seq!["Guardar ajustes"@, "Cancelar"@, "Confirmar"@, "Iniciar"@, "Descargar"@, "Eliminar"@, "Actualizar"@, "Ajustes"@, "Cuentas"@, "Idioma"@],
        Language::Italian => seq!["Salva impostazioni"@, "Annulla"@, "Conferma"@, "Avvia"@, "Scarica"@, "Elimina"@, "Aggiorna"@, "Impostazioni"@, "Account"@, "Lingua"@],
        Language::Portuguese => seq!["Salvar configurações"@, "Cancelar"@, "Confirmar"@, "Iniciar"@, "Baixar"@, "Excluir"@, "Atualizar"@, "Configurações"@, "Contas"@, "Idioma"@],
        Language::Polish => seq!["Zapisz ustawienia"@, "Anuluj"@, "Potwierdź"@, "Uruchom"@, "Pobierz"@, "Usuń"@, "Odśwież"@, "Ustawienia"@, "Konta"@, "Język"@],
        Language::Ukrainian => seq!["Зберегти налаштування"@, "Скасувати"@, "Підтвердити"@, "Запустити"@, "Завантажити"@, "Видалити"@, "Оновити"@, "Налаштування"@, "Облікові записи"@, "Мова"@],
        Language::Turkish => seq!["Ayarları kaydet"@, "İptal"@, "Onayla"@, "Başlat"@, "İndir"@, "Sil"@, "Yenile"@, "Ayarlar"@, "Hesaplar"@, "Dil"@],
        Language::Chinese => seq!["保存设置"@, "取消"@, "确认"@, "启动"@, "下载"@, "删除"@, "刷新"@, "设置"@, "账户"@, "语言"@],
        Language::Japanese => seq!["設定を保存"@, "キャンセル"@, "確認"@, "起動"@, "ダウンロード"@, "削除"@, "更新"@, "設定"@, "アカウント"@, "言語"@],
        Language::Korean => seq!["설정 저장"@, "취소"@, "확인"@, "실행"@, "다운로드"@, "삭제"@, "새로고침"@, "설정"@, "계정"@, "언어"@],
    }
}

/// The position of `key` among the translated keys, looking from `from`.
pub open spec fn key_index(key: Seq<char>, from: int) -> Option<int>
    decreases 10 - from,
{
    if from < 0 || from >= 10 {
        None
    } else if translated_keys()[from] == key {
        Some(from)
    } else {
        key_index(key, from + 1)
    }
}

/// The text shown for an English UI string: its translation when the
/// language has one, else the English text.
pub open spec fn tr_spec(lang: Language, key: Seq<char>) -> Seq<char> {
    if lang == Language::English {
        key
    } else {
        match key_index(key, 0) {
            Some(i) => translations(lang)[i],
            None => key,
        }
    }
}

fn table(lang: Language) -> (r: Vec<&'static str>)
    ensures
        r@.map_values(|s: &str| s@) == translations(lang),
        r.len() == 10,
{
    let r: Vec<&'static str> = match lang {
        Language::English => vec!["Save settings", "Cancel", "Confirm", "Launch", "Download", "Delete", "Refresh", "Settings", "Accounts", "Language"],
        Language::Russian => vec!["Сохранить настройки", "Отмена", "Подтвердить", "Запустить", "Скачать", "Удалить", "Обновить", "Настройки", "Аккаунты", "Язык"],
        Language::German => vec!["Einstellungen speichern", "Abbrechen", "Bestätigen", "Starten", "Herunterladen", "Löschen", "Aktualisieren", "Einstellungen", "Konten", "Sprache"],
        Language::French => vec!["Enregistrer les paramètres", "Annuler", "Confirmer", "Lancer", "Télécharger", "Supprimer", "Actualiser", "Paramètres", "Comptes", "Langue"],
        Language::Spanish => vec!["Guardar ajustes", "Cancelar", "Confirmar", "Iniciar", "Descargar", "Eliminar", "Actualizar", "Ajustes", "Cuentas", "Idioma"],
        Language::Italian => vec!["Salva impostazioni", "Annulla", "Conferma", "Avvia", "Scarica", "Elimina", "Aggiorna", "Impostazioni", "Account", "Lingua"],
        Language::Portuguese => vec!["Salvar configurações", "Cancelar", "Confirmar", "Iniciar", "Baixar", "Excluir", "Atualizar", "Configurações", "Contas", "Idioma"],
        Language::Polish => vec!["Zapisz ustawienia", "Anuluj", "Potwierdź", "Uruchom", "Pobierz", "Usuń", "Odśwież", "Ustawienia", "Konta", "Język"],
        Language::Ukrainian => vec!["Зберегти налаштування", "Скасувати", "Підтвердити", "Запустити", "Завантажити", "Видалити", "Оновити", "Налаштування", "Облікові записи", "Мова"],
        Language::Turkish => vec!["Ayarları kaydet", "İptal", "Onayla", "Başlat", "İndir", "Sil", "Yenile", "Ayarlar", "Hesaplar", "Dil"],
        Language::Chinese => vec!["保存设置", "取消", "确认", "启动", "下载", "删除", "刷新", "设置", "账户", "语言"],
        Language::Japanese => vec!["設定を保存", "キャンセル", "確認", "起動", "ダウンロード", "削除", "更新", "設定", "アカウント", "言語"],
        Language::Korean => vec!["설정 저장", "취소", "확인", "실행", "다운로드", "삭제", "새로고침", "설정", "계정", "언어"],
    };
    assert(r@.map_values(|s: &str| s@) =~= translations(lang));
    r
}

proof fn lemma_keys_revealed()
    ensures
        translated_keys().len() == 10,
        translated_keys()[0].len() == 13,
        translated_keys()[1].len() == 6,
        translated_keys()[2].len() == 7,
        translated_keys()[3].len() == 6,
        translated_keys()[4].len() == 8,
        translated_keys()[5].len() == 6,
        translated_keys()[6].len() == 7,
        translated_keys()[7].len() == 8,
        translated_keys()[8].len() == 8,
        translated_keys()[9].len() == 8,
{
    reveal_strlit("Save settings");
    reveal_strlit("Cancel");
    reveal_strlit("Confirm");
    reveal_strlit("Launch");
    reveal_strlit("Download");
    reveal_strlit("Delete");
    reveal_strlit("Refresh");
    reveal_strlit("Settings");
    reveal_strlit("Accounts");
    reveal_strlit("Language");
}

proof fn lemma_translations_russian()
    ensures
        forall|k: int| 0 <= k < 10 ==> (#[trigger] translations(Language::Russian)[k]).len() > 0 && translations(Language::Russian)[k] != translated_keys()[k],
{
    lemma_keys_revealed();
    reveal_strlit("Сохранить настройки");
    reveal_strlit("Отмена");
    reveal_strlit("Подтвердить");
    reveal_strlit("Запустить");
    reveal_strlit("Скачать");
    reveal_strlit("Удалить");
    reveal_strlit("Обновить");
    reveal_strlit("Настройки");
    reveal_strlit("Аккаунты");
    reveal_strlit("Язык");
    reveal_strlit("Save settings");
    reveal_strlit("Cancel");
    reveal_strlit("Confirm");
    reveal_strlit("Launch");
    reveal_strlit("Download");
    reveal_strlit("Delete");
    reveal_strlit("Refresh");
    reveal_strlit("Settings");
    reveal_strlit("Accounts");
    reveal_strlit("Language");
    let t = translations(Language::Russian);
    let e = translated_keys();
    assert(t[0].len() == 19);
    assert(t[1].len() == 6 && t[1][0] != e[1][0]);
    assert(t[2].len() == 11);
    assert(t[3].len() == 9);
    assert(t[4].len() == 7);
    assert(t[5].len() == 7);
    assert(t[6].len() == 8);
    assert(t[7].len() == 9);
    assert(t[8].len() == 8 && t[8][0] != e[8][0]);
    assert(t[9].len() == 4);
}

proof fn lemma_translations_german()
    ensures
        forall|k: int| 0 <= k < 10 ==> (#[trigger] translations(Language::German)[k]).len() > 0 && translations(Language::German)[k] != translated_keys()[k],
{
    lemma_keys_revealed();
    reveal_strlit("Einstellungen speichern");
    reveal_strlit("Abbrechen");
    reveal_strlit("Bestätigen");
    reveal_strlit("Starten");
    reveal_strlit("Herunterladen");
    reveal_strlit("Löschen");
    reveal_strlit("Aktualisieren");
    reveal_strlit("Einstellungen");
    reveal_strlit("Konten");
    reveal_strlit("Sprache");
    reveal_strlit("Save settings");
    reveal_strlit("Cancel");
    reveal_strlit("Confirm");
    reveal_strlit("Launch");
    reveal_strlit("Download");
    reveal_strlit("Delete");
    reveal_strlit("Refresh");
    reveal_strlit("Settings");
    reveal_strlit("Accounts");
    reveal_strlit("Language");
    let t = translations(Language::German);
    let e = translated_keys();
    assert(t[0].len() == 23);
    assert(t[1].len() == 9);
    assert(t[2].len() == 10);
    assert(t[3].len() == 7);
    assert(t[4].len() == 13);
    assert(t[5].len() == 7);
    assert(t[6].len() == 13);
    assert(t[7].len() == 13);
    assert(t[8].len() == 6);
    assert(t[9].len() == 7);
}

proof fn lemma_translations_french()
    ensures
        forall|k: int| 0 <= k < 10 ==> (#[trigger] translations(Language::French)[k]).len() > 0 && translations(Language::French)[k] != translated_keys()[k],
{
    lemma_keys_revealed();
    reveal_strlit("Enregistrer les paramètres");
    reveal_strlit("Annuler");
    reveal_strlit("Confirmer");
    reveal_strlit("Lancer");
    reveal_strlit("Télécharger");
    reveal_strlit("Supprimer");
    reveal_strlit("Actualiser");
    reveal_strlit("Paramètres");
    reveal_strlit("Comptes");
    reveal_strlit("Langue");
    reveal_strlit("Save settings");
    reveal_strlit("Cancel");
    reveal_strlit("Confirm");
    reveal_strlit("Launch");
    reveal_strlit("Download");
    reveal_strlit("Delete");
    reveal_strlit("Refresh");
    reveal_strlit("Settings");
    reveal_strlit("Accounts");
    reveal_strlit("Language");
    let t = translations(Language::French);
    let e = translated_keys();
    assert(t[0].len() == 26);
    assert(t[1].len() == 7);
    assert(t[2].len() == 9);
    assert(t[3].len() == 6 && t[3][2] != e[3][2]);
    assert(t[4].len() == 11);
    assert(t[5].len() == 9);
    assert(t[6].len() == 10);
    assert(t[7].len() == 10);
    assert(t[8].len() == 7);
    assert(t[9].len() == 6);
}

proof fn lemma_translations_spanish()
    ensures
        forall|k: int| 0 <= k < 10 ==> (#[trigger] translations(Language::Spanish)[k]).len() > 0 && translations(Language::Spanish)[k] != translated_keys()[k],
{
    lemma_keys_revealed();
    reveal_strlit("Guardar ajustes");
    reveal_strlit("Cancelar");
    reveal_strlit("Confirmar");
    reveal_strlit("Iniciar");
    reveal_strlit("Descargar");
    reveal_strlit("Eliminar");
    reveal_strlit("Actualizar");
    reveal_strlit("Ajustes");
    reveal_strlit("Cuentas");
    reveal_strlit("Idioma");
    reveal_strlit("Save settings");
    reveal_strlit("Cancel");
    reveal_strlit("Confirm");
    reveal_strlit("Launch");
    reveal_strlit("Download");
    reveal_strlit("Delete");
    reveal_strlit("Refresh");
    reveal_strlit("Settings");
    reveal_strlit("Accounts");
    reveal_strlit("Language");
    let t = translations(Language::Spanish);
    let e = translated_keys();
    assert(t[0].len() == 15);
    assert(t[1].len() == 8);
    assert(t[2].len() == 9);
    assert(t[3].len() == 7);
    assert(t[4].len() == 9);
    assert(t[5].len() == 8);
    assert(t[6].len() == 10);
    assert(t[7].len() == 7);
    assert(t[8].len() == 7);
    assert(t[9].len() == 6);
}

proof fn lemma_translations_italian()
    ensures
        forall|k: int| 0 <= k < 10 ==> (#[trigger] translations(Language::Italian)[k]).len() > 0 && translations(Language::Italian)[k] != translated_keys()[k],
{
    lemma_keys_revealed();
    reveal_strlit("Salva impostazioni");
    reveal_strlit("Annulla");
    reveal_strlit("Conferma");
    reveal_strlit("Avvia");
    reveal_strlit("Scarica");
    reveal_strlit("Elimina");
    reveal_strlit("Aggiorna");
    reveal_strlit("Impostazioni");
    reveal_strlit("Account");
    reveal_strlit("Lingua");
    reveal_strlit("Save settings");
    reveal_strlit("Cancel");
    reveal_strlit("Confirm");
    reveal_strlit("Launch");
    reveal_strlit("Download");
    reveal_strlit("Delete");
    reveal_strlit("Refresh");
    reveal_strlit("Settings");
    reveal_strlit("Accounts");
    reveal_strlit("Language");
    let t = translations(Language::Italian);
    let e = translated_keys();
    assert(t[0].len() == 18);
    assert(t[1].len() == 7);
    assert(t[2].len() == 8);
    assert(t[3].len() == 5);
    assert(t[4].len() == 7);
    assert(t[5].len() == 7);
    assert(t[6].len() == 8);
    assert(t[7].len() == 12);
    assert(t[8].len() == 7);
    assert(t[9].len() == 6);
}

proof fn lemma_translations_portuguese()
    ensures
        forall|k: int| 0 <= k < 10 ==> (#[trigger] translations(Language::Portuguese)[k]).len() > 0 && translations(Language::Portuguese)[k] != translated_keys()[k],
{
    lemma_keys_revealed();
    reveal_strlit("Salvar configurações");
    reveal_strlit("Cancelar");
    reveal_strlit("Confirmar");
    reveal_strlit("Iniciar");
    reveal_strlit("Baixar");
    reveal_strlit("Excluir");
    reveal_strlit("Atualizar");
    reveal_strlit("Configurações");
    reveal_strlit("Contas");
    reveal_strlit("Idioma");
    reveal_strlit("Save settings");
    reveal_strlit("Cancel");
    reveal_strlit("Confirm");
    reveal_strlit("Launch");
    reveal_strlit("Download");
    reveal_strlit("Delete");
    reveal_strlit("Refresh");
    reveal_strlit("Settings");
    reveal_strlit("Accounts");
    reveal_strlit("Language");
    let t = translations(Language::Portuguese);
    let e = translated_keys();
    assert(t[0].len() == 20);
    assert(t[1].len() == 8);
    assert(t[2].len() == 9);
    assert(t[3].len() == 7);
    assert(t[4].len() == 6);
    assert(t[5].len() == 7);
    assert(t[6].len() == 9);
    assert(t[7].len() == 13);
    assert(t[8].len() == 6);
    assert(t[9].len() == 6);
}

proof fn lemma_translations_polish()
    ensures
        forall|k: int| 0 <= k < 10 ==> (#[trigger] translations(Language::Polish)[k]).len() > 0 && translations(Language::Polish)[k] != translated_keys()[k],
{
    lemma_keys_revealed();
    reveal_strlit("Zapisz ustawienia");
    reveal_strlit("Anuluj");
    reveal_strlit("Potwierdź");
    reveal_strlit("Uruchom");
    reveal_strlit("Pobierz");
    reveal_strlit("Usuń");
    reveal_strlit("Odśwież");
    reveal_strlit("Ustawienia");
    reveal_strlit("Konta");
    reveal_strlit("Język");
    reveal_strlit("Save settings");
    reveal_strlit("Cancel");
    reveal_strlit("Confirm");
    reveal_strlit("Launch");
    reveal_strlit("Download");
    reveal_strlit("Delete");
    reveal_strlit("Refresh");
    reveal_strlit("Settings");
    reveal_strlit("Accounts");
    reveal_strlit("Language");
    let t = translations(Language::Polish);
    let e = translated_keys();
    assert(t[0].len() == 17);
    assert(t[1].len() == 6 && t[1][0] != e[1][0]);
    assert(t[2].len() == 9);
    assert(t[3].len() == 7);
    assert(t[4].len() == 7);
    assert(t[5].len() == 4);
    assert(t[6].len() == 7 && t[6][0] != e[6][0]);
    assert(t[7].len() == 10);
    assert(t[8].len() == 5);
    assert(t[9].len() == 5);
}

proof fn lemma_translations_ukrainian()
    ensures
        forall|k: int| 0 <= k < 10 ==> (#[trigger] translations(Language::Ukrainian)[k]).len() > 0 && translations(Language::Ukrainian)[k] != translated_keys()[k],
{
    lemma_keys_revealed();
    reveal_strlit("Зберегти налаштування");
    reveal_strlit("Скасувати");
    reveal_strlit("Підтвердити");
    reveal_strlit("Запустити");
    reveal_strlit("Завантажити");
    reveal_strlit("Видалити");
    reveal_strlit("Оновити");
    reveal_strlit("Налаштування");
    reveal_strlit("Облікові записи");
    reveal_strlit("Мова");
    reveal_strlit("Save settings");
    reveal_strlit("Cancel");
    reveal_strlit("Confirm");
    reveal_strlit("Launch");
    reveal_strlit("Download");
    reveal_strlit("Delete");
    reveal_strlit("Refresh");
    reveal_strlit("Settings");
    reveal_strlit("Accounts");
    reveal_strlit("Language");
    let t = translations(Language::Ukrainian);
    let e = translated_keys();
    assert(t[0].len() == 21);
    assert(t[1].len() == 9);
    assert(t[2].len() == 11);
    assert(t[3].len() == 9);
    assert(t[4].len() == 11);
    assert(t[5].len() == 8);
    assert(t[6].len() == 7 && t[6][0] != e[6][0]);
    assert(t[7].len() == 12);
    assert(t[8].len() == 15);
    assert(t[9].len() == 4);
}

proof fn lemma_translations_turkish()
    ensures
        forall|k: int| 0 <= k < 10 ==> (#[trigger] translations(Language::Turkish)[k]).len() > 0 && translations(Language::Turkish)[k] != translated_keys()[k],
{
    lemma_keys_revealed();
    reveal_strlit("Ayarları kaydet");
    reveal_strlit("İptal");
    reveal_strlit("Onayla");
    reveal_strlit("Başlat");
    reveal_strlit("İndir");
    reveal_strlit("Sil");
    reveal_strlit("Yenile");
    reveal_strlit("Ayarlar");
    reveal_strlit("Hesaplar");
    reveal_strlit("Dil");
    reveal_strlit("Save settings");
    reveal_strlit("Cancel");
    reveal_strlit("Confirm");
    reveal_strlit("Launch");
    reveal_strlit("Download");
    reveal_strlit("Delete");
    reveal_strlit("Refresh");
    reveal_strlit("Settings");
    reveal_strlit("Accounts");
    reveal_strlit("Language");
    let t = translations(Language::Turkish);
    let e = translated_keys();
    assert(t[0].len() == 15);
    assert(t[1].len() == 5);
    assert(t[2].len() == 6);
    assert(t[3].len() == 6 && t[3][0] != e[3][0]);
    assert(t[4].len() == 5);
    assert(t[5].len() == 3);
    assert(t[6].len() == 6);
    assert(t[7].len() == 7);
    assert(t[8].len() == 8 && t[8][0] != e[8][0]);
    assert(t[9].len() == 3);
}

proof fn lemma_translations_chinese()
    ensures
        forall|k: int| 0 <= k < 10 ==> (#[trigger] translations(Language::Chinese)[k]).len() > 0 && translations(Language::Chinese)[k] != translated_keys()[k],
{
    lemma_keys_revealed();
    reveal_strlit("保存设置");
    reveal_strlit("取消");
    reveal_strlit("确认");
    reveal_strlit("启动");
    reveal_strlit("下载");
    reveal_strlit("删除");
    reveal_strlit("刷新");
    reveal_strlit("设置");
    reveal_strlit("账户");
    reveal_strlit("语言");
    reveal_strlit("Save settings");
    reveal_strlit("Cancel");
    reveal_strlit("Confirm");
    reveal_strlit("Launch");
    reveal_strlit("Download");
    reveal_strlit("Delete");
    reveal_strlit("Refresh");
    reveal_strlit("Settings");
    reveal_strlit("Accounts");
    reveal_strlit("Language");
    let t = translations(Language::Chinese);
    let e = translated_keys();
    assert(t[0].len() == 4);
    assert(t[1].len() == 2);
    assert(t[2].len() == 2);
    assert(t[3].len() == 2);
    assert(t[4].len() == 2);
    assert(t[5].len() == 2);
    assert(t[6].len() == 2);
    assert(t[7].len() == 2);
    assert(t[8].len() == 2);
    assert(t[9].len() == 2);
}

proof fn lemma_translations_japanese()
    ensures
        forall|k: int| 0 <= k < 10 ==> (#[trigger] translations(Language::Japanese)[k]).len() > 0 && translations(Language::Japanese)[k] != translated_keys()[k],
{
    lemma_keys_revealed();
    reveal_strlit("設定を保存");
    reveal_strlit("キャンセル");
    reveal_strlit("確認");
    reveal_strlit("起動");
    reveal_strlit("ダウンロード");
    reveal_strlit("削除");
    reveal_strlit("更新");
    reveal_strlit("設定");
    reveal_strlit("アカウント");
    reveal_strlit("言語");
    reveal_strlit("Save settings");
    reveal_strlit("Cancel");
    reveal_strlit("Confirm");
    reveal_strlit("Launch");
    reveal_strlit("Download");
    reveal_strlit("Delete");
    reveal_strlit("Refresh");
    reveal_strlit("Settings");
    reveal_strlit("Accounts");
    reveal_strlit("Language");
    let t = translations(Language::Japanese);
    let e = translated_keys();
    assert(t[0].len() == 5);
    assert(t[1].len() == 5);
    assert(t[2].len() == 2);
    assert(t[3].len() == 2);
    assert(t[4].len() == 6);
    assert(t[5].len() == 2);
    assert(t[6].len() == 2);
    assert(t[7].len() == 2);
    assert(t[8].len() == 5);
    assert(t[9].len() == 2);
}

proof fn lemma_translations_korean()
    ensures
        forall|k: int| 0 <= k < 10 ==> (#[trigger] translations(Language::Korean)[k]).len() > 0 && translations(Language::Korean)[k] != translated_keys()[k],
{
    lemma_keys_revealed();
    reveal_strlit("설정 저장");
    reveal_strlit("취소");
    reveal_strlit("확인");
    reveal_strlit("실행");
    reveal_strlit("다운로드");
    reveal_strlit("삭제");
    reveal_strlit("새로고침");
    reveal_strlit("설정");
    reveal_strlit("계정");
    reveal_strlit("언어");
    reveal_strlit("Save settings");
    reveal_strlit("Cancel");
    reveal_strlit("Confirm");
    reveal_strlit("Launch");
    reveal_strlit("Download");
    reveal_strlit("Delete");
    reveal_strlit("Refresh");
    reveal_strlit("Settings");
    reveal_strlit("Accounts");
    reveal_strlit("Language");
    let t = translations(Language::Korean);
    let e = translated_keys();
    assert(t[0].len() == 5);
    assert(t[1].len() == 2);
    assert(t[2].len() == 2);
    assert(t[3].len() == 2);
    assert(t[4].len() == 4);
    assert(t[5].len() == 2);
    assert(t[6].len() == 4);
    assert(t[7].len() == 2);
    assert(t[8].len() == 2);
    assert(t[9].len() == 2);
}

proof fn lemma_key_index(k: int)
    requires
        0 <= k < 10,
    ensures
        key_index(translated_keys()[k], 0) == Some(k),
{
    reveal_strlit("Save settings");
    reveal_strlit("Cancel");
    reveal_strlit("Confirm");
    reveal_strlit("Launch");
    reveal_strlit("Download");
    reveal_strlit("Delete");
    reveal_strlit("Refresh");
    reveal_strlit("Settings");
    reveal_strlit("Accounts");
    reveal_strlit("Language");
    let e = translated_keys();
    assert(e[0].len() == 13 && e[0][0] == 'S');
    assert(e[1].len() == 6 && e[1][0] == 'C');
    assert(e[2].len() == 7 && e[2][0] == 'C');
    assert(e[3].len() == 6 && e[3][0] == 'L');
    assert(e[4].len() == 8 && e[4][0] == 'D');
    assert(e[5].len() == 6 && e[5][0] == 'D');
    assert(e[6].len() == 7 && e[6][0] == 'R');
    assert(e[7].len() == 8 && e[7][0] == 'S');
    assert(e[8].len() == 8 && e[8][0] == 'A');
    assert(e[9].len() == 8 && e[9][0] == 'L');
    reveal_with_fuel(key_index, 11);
    if k == 0 {
        assert(key_index(e[0], 0) == Some(0int));
    } else if k == 1 {
        assert(key_index(e[1], 0) == Some(1int));
    } else if k == 2 {
        assert(key_index(e[2], 0) == Some(2int));
    } else if k == 3 {
        assert(key_index(e[3], 0) == Some(3int));
    } else if k == 4 {
        assert(key_index(e[4], 0) == Some(4int));
    } else if k == 5 {
        assert(key_index(e[5], 0) == Some(5int));
    } else if k == 6 {
        assert(key_index(e[6], 0) == Some(6int));
    } else if k == 7 {
        assert(key_index(e[7], 0) == Some(7int));
    } else if k == 8 {
        assert(key_index(e[8], 0) == Some(8int));
    } else if k == 9 {
        assert(key_index(e[9], 0) == Some(9int));
    }
}

/// Each of the translated keys reads, in every language other than
/// English, as a text that is not blank and differs from the English one.
pub proof fn lemma_tr_translates_keys(lang: Language, k: int)
    requires
        lang != Language::English,
        0 <= k < 10,
    ensures
        tr_spec(lang, translated_keys()[k]) == translations(lang)[k],
        tr_spec(lang, translated_keys()[k]).len() > 0,
        tr_spec(lang, translated_keys()[k]) != translated_keys()[k],
{
    lemma_key_index(k);
    match lang {
        Language::Russian => lemma_translations_russian(),
        Language::German => lemma_translations_german(),
        Language::French => lemma_translations_french(),
        Language::Spanish => lemma_translations_spanish(),
        Language::Italian => lemma_translations_italian(),
        Language::Portuguese => lemma_translations_portuguese(),
        Language::Polish => lemma_translations_polish(),
        Language::Ukrainian => lemma_translations_ukrainian(),
        Language::Turkish => lemma_translations_turkish(),
        Language::Chinese => lemma_translations_chinese(),
        Language::Japanese => lemma_translations_japanese(),
        Language::Korean => lemma_translations_korean(),
        Language::English => {},
    }
}

/// A key longer than every translated key is shown as it is, in every
/// language.
pub proof fn lemma_untranslated_key(lang: Language, key: Seq<char>)
    requires
        key.len() > 13,
    ensures
        tr_spec(lang, key) == key,
{
    lemma_keys_revealed();
    reveal_with_fuel(key_index, 11);
    assert(key_index(key, 0) is None);
}

/// Filling one placeholder into a template that does not start with one
/// leaves a text that is not empty.
pub proof fn lemma_filled_one_nonempty(template: Seq<char>, arg: Seq<char>)
    requires
        template.len() > 0,
        template[0] != '{',
    ensures
        filled(template, seq![arg]).len() > 0,
{
    reveal_strlit("{");
    let ph = placeholder(0);
    assert(ph[0] == '{');
    let args = seq![arg];
    assert(args.len() == 1 && args.last() == arg);
    assert(args.drop_last() =~= Seq::<Seq<char>>::empty());
    assert(filled(template, args.drop_last()) == template);
    assert(filled(template, args) == replace_all(template, ph, arg));
    assert(!crate::text::starts_with(template, ph)) by {
        if crate::text::starts_with(template, ph) {
            assert(template.take(ph.len() as int)[0] == template[0]);
        }
    }
}

/// Translate an English UI string. Unknown keys (or languages without a
/// translation yet) return the English text unchanged.
pub fn tr<'a>(lang: Language, key: &'a str) -> (r: &'a str)
    ensures
        r@ == tr_spec(lang, key@),
        lang == Language::English ==> r@ == key@,
        key_index(key@, 0) is None ==> r@ == key@,
{
    if lang == Language::English {
        return key;
    }
    let keys = table(Language::English);
    let t = table(lang);
    let mut i: usize = 0;
    while i < 10
        invariant
            i <= 10,
            keys.len() == 10,
            t.len() == 10,
            keys@.map_values(|s: &str| s@) == translated_keys(),
            t@.map_values(|s: &str| s@) == translations(lang),
            key_index(key@, 0) == key_index(key@, i as int),
        decreases 10 - i,
    {
        assert(translated_keys()[i as int] == keys@[i as int]@);
        if str_eq(keys[i], key) {
            assert(translations(lang)[i as int] == t@[i as int]@);
            return t[i];
        }
        i += 1;
    }
    key
}

/// The placeholder `{i}`.
pub open spec fn placeholder(i: nat) -> Seq<char> {
    "{"@ + dec(i) + "}"@
}

/// `template` with `{0}`, `{1}`, … replaced by the arguments, in order.
pub open spec fn filled(template: Seq<char>, args: Seq<Seq<char>>) -> Seq<char>
    decreases args.len(),
{
    if args.len() == 0 {
        template
    } else {
        replace_all(filled(template, args.drop_last()), placeholder((args.len() - 1) as nat), args.last())
    }
}

/// Translate a template and substitute `{0}`, `{1}`, … with `args`.
pub fn tr_fmt(lang: Language, key: &str, args: &[&str]) -> (r: String)
    ensures
        r@ == filled(tr_spec(lang, key@), args@.map_values(|s: &str| s@)),
{
    let ghost av = args@.map_values(|s: &str| s@);
    let mut out = to_chars(tr(lang, key));
    let mut i: usize = 0;
    while i < args.len()
        invariant
            i <= args.len(),
            av == args@.map_values(|s: &str| s@),
            out@ == filled(tr_spec(lang, key@), av.take(i as int)),
        decreases args.len() - i,
    {
        let mut p: Vec<char> = Vec::new();
        p.push('{');
        push_dec(&mut p, i as u64);
        p.push('}');
        proof {
            reveal_strlit("{");
            reveal_strlit("}");
            assert(p@ =~= placeholder(i as nat));
        }
        out = replace_exec(out.as_slice(), p.as_slice(), to_chars(args[i]).as_slice());
        assert(av.take(i + 1).drop_last() =~= av.take(i as int));
        assert(av[i as int] == args@[i as int]@);
        i += 1;
    }
    assert(av.take(args.len() as int) =~= av);
    string_of(out.as_slice())
}

} // verus!
