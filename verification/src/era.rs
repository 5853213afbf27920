//! The table of Japanese eras (start year and name) and the era names of a
//! Gregorian year.
use vstd::prelude::*;

use crate::text::{push_decimal, push_str, signed_decimal, string_of, views};

verus! {

/// Number of eras in the table.
pub const ERA_COUNT: usize = 232;

/// Entry `i` of the era table: the Gregorian year in which the era starts
/// and its name. Entries are ordered by start year.
pub open spec fn era_entry(i: int) -> (int, Seq<char>) {
    if i == 0 {
        (645, "大化"@)
    } else if i == 1 {
        (650, "白雉"@)
    } else if i == 2 {
        (686, "朱鳥"@)
    } else if i == 3 {
        (701, "大宝"@)
    } else if i == 4 {
        (704, "慶雲"@)
    } else if i == 5 {
        (708, "和銅"@)
    } else if i == 6 {
        (715, "霊亀"@)
    } else if i == 7 {
        (717, "養老"@)
    } else if i == 8 {
        (724, "神亀"@)
    } else if i == 9 {
        (729, "天平"@)
    } else if i == 10 {
        (749, "天平感宝"@)
    } else if i == 11 {
        (749, "天平勝宝"@)
    } else if i == 12 {
        (757, "天平宝字"@)
    } else if i == 13 {
        (765, "天平神護"@)
    } else if i == 14 {
        (767, "神護景雲"@)
    } else if i == 15 {
        (770, "宝亀"@)
    } else if i == 16 {
        (781, "天応"@)
    } else if i == 17 {
        (782, "延暦"@)
    } else if i == 18 {
        (806, "大同"@)
    } else if i == 19 {
        (810, "弘仁"@)
    } else if i == 20 {
        (824, "天長"@)
    } else if i == 21 {
        (834, "承和"@)
    } else if i == 22 {
        (848, "嘉祥"@)
    } else if i == 23 {
        (851, "仁寿"@)
    } else if i == 24 {
        (854, "斉衡"@)
    } else if i == 25 {
        (857, "天安"@)
    } else if i == 26 {
        (859, "貞観"@)
    } else if i == 27 {
        (877, "元慶"@)
    } else if i == 28 {
        (885, "仁和"@)
    } else if i == 29 {
        (889, "寛平"@)
    } else if i == 30 {
        (898, "昌泰"@)
    } else if i == 31 {
        (901, "延喜"@)
    } else if i == 32 {
        (923, "延長"@)
    } else if i == 33 {
        (931, "承平"@)
    } else if i == 34 {
        (938, "天慶"@)
    } else if i == 35 {
        (947, "天暦"@)
    } else if i == 36 {
        (957, "天徳"@)
    } else if i == 37 {
        (961, "応和"@)
    } else if i == 38 {
        (964, "康保"@)
    } else if i == 39 {
        (968, "安和"@)
    } else if i == 40 {
        (970, "天禄"@)
    } else if i == 41 {
        (973, "天延"@)
    } else if i == 42 {
        (976, "貞元"@)
    } else if i == 43 {
        (978, "天元"@)
    } else if i == 44 {
        (983, "永観"@)
    } else if i == 45 {
        (985, "寛和"@)
    } else if i == 46 {
        (987, "永延"@)
    } else if i == 47 {
        (989, "永祚"@)
    } else if i == 48 {
        (990, "正暦"@)
    } else if i == 49 {
        (995, "長徳"@)
    } else if i == 50 {
        (999, "長保"@)
    } else if i == 51 {
        (1004, "寛弘"@)
    } else if i == 52 {
        (1012, "長和"@)
    } else if i == 53 {
        (1017, "寛仁"@)
    } else if i == 54 {
        (1021, "治安"@)
    } else if i == 55 {
        (1024, "万寿"@)
    } else if i == 56 {
        (1028, "長元"@)
    } else if i == 57 {
        (1037, "長暦"@)
    } else if i == 58 {
        (1040, "長久"@)
    } else if i == 59 {
        (1044, "寛徳"@)
    } else if i == 60 {
        (1046, "永承"@)
    } else if i == 61 {
        (1053, "天喜"@)
    } else if i == 62 {
        (1058, "康平"@)
    } else if i == 63 {
        (1065, "治暦"@)
    } else if i == 64 {
        (1069, "延久"@)
    } else if i == 65 {
        (1074, "承保"@)
    } else if i == 66 {
        (1077, "承暦"@)
    } else if i == 67 {
        (1081, "永保"@)
    } else if i == 68 {
        (1084, "応徳"@)
    } else if i == 69 {
        (1087, "寛治"@)
    } else if i == 70 {
        (1094, "嘉保"@)
    } else if i == 71 {
        (1096, "永長"@)
    } else if i == 72 {
        (1097, "承徳"@)
    } else if i == 73 {
        (1099, "康和"@)
    } else if i == 74 {
        (1104, "長治"@)
    } else if i == 75 {
        (1106, "嘉承"@)
    } else if i == 76 {
        (1108, "天仁"@)
    } else if i == 77 {
        (1110, "天永"@)
    } else if i == 78 {
        (1113, "永久"@)
    } else if i == 79 {
        (1118, "元永"@)
    } else if i == 80 {
        (1120, "保安"@)
    } else if i == 81 {
        (1124, "天治"@)
    } else if i == 82 {
        (1126, "大治"@)
    } else if i == 83 {
        (1131, "天承"@)
    } else if i == 84 {
        (1132, "長承"@)
    } else if i == 85 {
        (1135, "保延"@)
    } else if i == 86 {
        (1141, "永治"@)
    } else if i == 87 {
        (1142, "康治"@)
    } else if i == 88 {
        (1144, "天養"@)
    } else if i == 89 {
        (1145, "久安"@)
    } else if i == 90 {
        (1151, "仁平"@)
    } else if i == 91 {
        (1154, "久寿"@)
    } else if i == 92 {
        (1156, "保元"@)
    } else if i == 93 {
        (1159, "平治"@)
    } else if i == 94 {
        (1160, "永暦"@)
    } else if i == 95 {
        (1161, "応保"@)
    } else if i == 96 {
        (1163, "長寛"@)
    } else if i == 97 {
        (1165, "永万"@)
    } else if i == 98 {
        (1166, "仁安"@)
    } else if i == 99 {
        (1169, "嘉応"@)
    } else if i == 100 {
        (1171, "承安"@)
    } else if i == 101 {
        (1175, "安元"@)
    } else if i == 102 {
        (1177, "治承"@)
    } else if i == 103 {
        (1181, "養和"@)
    } else if i == 104 {
        (1182, "寿永"@)
    } else if i == 105 {
        (1184, "元暦"@)
    } else if i == 106 {
        (1185, "文治"@)
    } else if i == 107 {
        (1190, "建久"@)
    } else if i == 108 {
        (1199, "正治"@)
    } else if i == 109 {
        (1201, "建仁"@)
    } else if i == 110 {
        (1204, "元久"@)
    } else if i == 111 {
        (1206, "建永"@)
    } else if i == 112 {
        (1207, "承元"@)
    } else if i == 113 {
        (1211, "建暦"@)
    } else if i == 114 {
        (1213, "建保"@)
    } else if i == 115 {
        (1219, "承久"@)
    } else if i == 116 {
        (1222, "貞応"@)
    } else if i == 117 {
        (1224, "元仁"@)
    } else if i == 118 {
        (1225, "嘉禄"@)
    } else if i == 119 {
        (1227, "安貞"@)
    } else if i == 120 {
        (1229, "寛喜"@)
    } else if i == 121 {
        (1232, "貞永"@)
    } else if i == 122 {
        (1233, "天福"@)
    } else if i == 123 {
        (1234, "文暦"@)
    } else if i == 124 {
        (1235, "嘉禎"@)
    } else if i == 125 {
        (1238, "暦仁"@)
    } else if i == 126 {
        (1239, "延応"@)
    } else if i == 127 {
        (1240, "仁治"@)
    } else if i == 128 {
        (1243, "寛元"@)
    } else if i == 129 {
        (1247, "宝治"@)
    } else if i == 130 {
        (1249, "建長"@)
    } else if i == 131 {
        (1256, "康元"@)
    } else if i == 132 {
        (1257, "正嘉"@)
    } else if i == 133 {
        (1259, "正元"@)
    } else if i == 134 {
        (1260, "文応"@)
    } else if i == 135 {
        (1261, "弘長"@)
    } else if i == 136 {
        (1264, "文永"@)
    } else if i == 137 {
        (1275, "建治"@)
    } else if i == 138 {
        (1278, "弘安"@)
    } else if i == 139 {
        (1288, "正応"@)
    } else if i == 140 {
        (1293, "永仁"@)
    } else if i == 141 {
        (1299, "正安"@)
    } else if i == 142 {
        (1302, "乾元"@)
    } else if i == 143 {
        (1303, "嘉元"@)
    } else if i == 144 {
        (1306, "徳治"@)
    } else if i == 145 {
        (1308, "延慶"@)
    } else if i == 146 {
        (1311, "応長"@)
    } else if i == 147 {
        (1312, "正和"@)
    } else if i == 148 {
        (1317, "文保"@)
    } else if i == 149 {
        (1319, "元応"@)
    } else if i == 150 {
        (1321, "元亨"@)
    } else if i == 151 {
        (1324, "正中"@)
    } else if i == 152 {
        (1326, "嘉暦"@)
    } else if i == 153 {
        (1329, "元徳"@)
    } else if i == 154 {
        (1331, "元弘"@)
    } else if i == 155 {
        (1334, "建武"@)
    } else if i == 156 {
        (1336, "延元"@)
    } else if i == 157 {
        (1340, "興国"@)
    } else if i == 158 {
        (1346, "正平"@)
    } else if i == 159 {
        (1370, "建徳"@)
    } else if i == 160 {
        (1372, "文中"@)
    } else if i == 161 {
        (1375, "天授"@)
    } else if i == 162 {
        (1381, "弘和"@)
    } else if i == 163 {
        (1384, "元中"@)
    } else if i == 164 {
        (1390, "明徳"@)
    } else if i == 165 {
        (1394, "応永"@)
    } else if i == 166 {
        (1428, "正長"@)
    } else if i == 167 {
        (1429, "永享"@)
    } else if i == 168 {
        (1441, "嘉吉"@)
    } else if i == 169 {
        (1444, "文安"@)
    } else if i == 170 {
        (1449, "宝徳"@)
    } else if i == 171 {
        (1452, "享徳"@)
    } else if i == 172 {
        (1455, "康正"@)
    } else if i == 173 {
        (1457, "長禄"@)
    } else if i == 174 {
        (1460, "寛正"@)
    } else if i == 175 {
        (1466, "文正"@)
    } else if i == 176 {
        (1467, "応仁"@)
    } else if i == 177 {
        (1469, "文明"@)
    } else if i == 178 {
        (1487, "長享"@)
    } else if i == 179 {
        (1489, "延徳"@)
    } else if i == 180 {
        (1492, "明応"@)
    } else if i == 181 {
        (1501, "文亀"@)
    } else if i == 182 {
        (1504, "永正"@)
    } else if i == 183 {
        (1521, "大永"@)
    } else if i == 184 {
        (1528, "享禄"@)
    } else if i == 185 {
        (1532, "天文"@)
    } else if i == 186 {
        (1555, "弘治"@)
    } else if i == 187 {
        (1558, "永禄"@)
    } else if i == 188 {
        (1570, "元亀"@)
    } else if i == 189 {
        (1573, "天正"@)
    } else if i == 190 {
        (1592, "文禄"@)
    } else if i == 191 {
        (1596, "慶長"@)
    } else if i == 192 {
        (1615, "元和"@)
    } else if i == 193 {
        (1624, "寛永"@)
    } else if i == 194 {
        (1644, "正保"@)
    } else if i == 195 {
        (1648, "慶安"@)
    } else if i == 196 {
        (1652, "承応"@)
    } else if i == 197 {
        (1655, "明暦"@)
    } else if i == 198 {
        (1658, "万治"@)
    } else if i == 199 {
        (1661, "寛文"@)
    } else if i == 200 {
        (1673, "延宝"@)
    } else if i == 201 {
        (1681, "天和"@)
    } else if i == 202 {
        (1684, "貞享"@)
    } else if i == 203 {
        (1688, "元禄"@)
    } else if i == 204 {
        (1704, "宝永"@)
    } else if i == 205 {
        (1711, "正徳"@)
    } else if i == 206 {
        (1716, "享保"@)
    } else if i == 207 {
        (1736, "元文"@)
    } else if i == 208 {
        (1741, "寛保"@)
    } else if i == 209 {
        (1744, "延享"@)
    } else if i == 210 {
        (1748, "寛延"@)
    } else if i == 211 {
        (1751, "宝暦"@)
    } else if i == 212 {
        (1764, "明和"@)
    } else if i == 213 {
        (1772, "安永"@)
    } else if i == 214 {
        (1781, "天明"@)
    } else if i == 215 {
        (1789, "寛政"@)
    } else if i == 216 {
        (1801, "享和"@)
    } else if i == 217 {
        (1804, "文化"@)
    } else if i == 218 {
        (1818, "文政"@)
    } else if i == 219 {
        (1830, "天保"@)
    } else if i == 220 {
        (1844, "弘化"@)
    } else if i == 221 {
        (1848, "嘉永"@)
    } else if i == 222 {
        (1854, "安政"@)
    } else if i == 223 {
        (1860, "万延"@)
    } else if i == 224 {
        (1861, "文久"@)
    } else if i == 225 {
        (1864, "元治"@)
    } else if i == 226 {
        (1865, "慶応"@)
    } else if i == 227 {
        (1868, "明治"@)
    } else if i == 228 {
        (1912, "大正"@)
    } else if i == 229 {
        (1926, "昭和"@)
    } else if i == 230 {
        (1989, "平成"@)
    } else {
        (2019, "令和"@)
    }
}

/// Entry `i` of the era table.
fn era_data(i: usize) -> (r: (i32, &'static str))
    requires
        i < ERA_COUNT,
    ensures
        r.0 as int == era_entry(i as int).0,
        r.1@ == era_entry(i as int).1,
{
    if i == 0 {
        (645, "大化")
    } else if i == 1 {
        (650, "白雉")
    } else if i == 2 {
        (686, "朱鳥")
    } else if i == 3 {
        (701, "大宝")
    } else if i == 4 {
        (704, "慶雲")
    } else if i == 5 {
        (708, "和銅")
    } else if i == 6 {
        (715, "霊亀")
    } else if i == 7 {
        (717, "養老")
    } else if i == 8 {
        (724, "神亀")
    } else if i == 9 {
        (729, "天平")
    } else if i == 10 {
        (749, "天平感宝")
    } else if i == 11 {
        (749, "天平勝宝")
    } else if i == 12 {
        (757, "天平宝字")
    } else if i == 13 {
        (765, "天平神護")
    } else if i == 14 {
        (767, "神護景雲")
    } else if i == 15 {
        (770, "宝亀")
    } else if i == 16 {
        (781, "天応")
    } else if i == 17 {
        (782, "延暦")
    } else if i == 18 {
        (806, "大同")
    } else if i == 19 {
        (810, "弘仁")
    } else if i == 20 {
        (824, "天長")
    } else if i == 21 {
        (834, "承和")
    } else if i == 22 {
        (848, "嘉祥")
    } else if i == 23 {
        (851, "仁寿")
    } else if i == 24 {
        (854, "斉衡")
    } else if i == 25 {
        (857, "天安")
    } else if i == 26 {
        (859, "貞観")
    } else if i == 27 {
        (877, "元慶")
    } else if i == 28 {
        (885, "仁和")
    } else if i == 29 {
        (889, "寛平")
    } else if i == 30 {
        (898, "昌泰")
    } else if i == 31 {
        (901, "延喜")
    } else if i == 32 {
        (923, "延長")
    } else if i == 33 {
        (931, "承平")
    } else if i == 34 {
        (938, "天慶")
    } else if i == 35 {
        (947, "天暦")
    } else if i == 36 {
        (957, "天徳")
    } else if i == 37 {
        (961, "応和")
    } else if i == 38 {
        (964, "康保")
    } else if i == 39 {
        (968, "安和")
    } else if i == 40 {
        (970, "天禄")
    } else if i == 41 {
        (973, "天延")
    } else if i == 42 {
        (976, "貞元")
    } else if i == 43 {
        (978, "天元")
    } else if i == 44 {
        (983, "永観")
    } else if i == 45 {
        (985, "寛和")
    } else if i == 46 {
        (987, "永延")
    } else if i == 47 {
        (989, "永祚")
    } else if i == 48 {
        (990, "正暦")
    } else if i == 49 {
        (995, "長徳")
    } else if i == 50 {
        (999, "長保")
    } else if i == 51 {
        (1004, "寛弘")
    } else if i == 52 {
        (1012, "長和")
    } else if i == 53 {
        (1017, "寛仁")
    } else if i == 54 {
        (1021, "治安")
    } else if i == 55 {
        (1024, "万寿")
    } else if i == 56 {
        (1028, "長元")
    } else if i == 57 {
        (1037, "長暦")
    } else if i == 58 {
        (1040, "長久")
    } else if i == 59 {
        (1044, "寛徳")
    } else if i == 60 {
        (1046, "永承")
    } else if i == 61 {
        (1053, "天喜")
    } else if i == 62 {
        (1058, "康平")
    } else if i == 63 {
        (1065, "治暦")
    } else if i == 64 {
        (1069, "延久")
    } else if i == 65 {
        (1074, "承保")
    } else if i == 66 {
        (1077, "承暦")
    } else if i == 67 {
        (1081, "永保")
    } else if i == 68 {
        (1084, "応徳")
    } else if i == 69 {
        (1087, "寛治")
    } else if i == 70 {
        (1094, "嘉保")
    } else if i == 71 {
        (1096, "永長")
    } else if i == 72 {
        (1097, "承徳")
    } else if i == 73 {
        (1099, "康和")
    } else if i == 74 {
        (1104, "長治")
    } else if i == 75 {
        (1106, "嘉承")
    } else if i == 76 {
        (1108, "天仁")
    } else if i == 77 {
        (1110, "天永")
    } else if i == 78 {
        (1113, "永久")
    } else if i == 79 {
        (1118, "元永")
    } else if i == 80 {
        (1120, "保安")
    } else if i == 81 {
        (1124, "天治")
    } else if i == 82 {
        (1126, "大治")
    } else if i == 83 {
        (1131, "天承")
    } else if i == 84 {
        (1132, "長承")
    } else if i == 85 {
        (1135, "保延")
    } else if i == 86 {
        (1141, "永治")
    } else if i == 87 {
        (1142, "康治")
    } else if i == 88 {
        (1144, "天養")
    } else if i == 89 {
        (1145, "久安")
    } else if i == 90 {
        (1151, "仁平")
    } else if i == 91 {
        (1154, "久寿")
    } else if i == 92 {
        (1156, "保元")
    } else if i == 93 {
        (1159, "平治")
    } else if i == 94 {
        (1160, "永暦")
    } else if i == 95 {
        (1161, "応保")
    } else if i == 96 {
        (1163, "長寛")
    } else if i == 97 {
        (1165, "永万")
    } else if i == 98 {
        (1166, "仁安")
    } else if i == 99 {
        (1169, "嘉応")
    } else if i == 100 {
        (1171, "承安")
    } else if i == 101 {
        (1175, "安元")
    } else if i == 102 {
        (1177, "治承")
    } else if i == 103 {
        (1181, "養和")
    } else if i == 104 {
        (1182, "寿永")
    } else if i == 105 {
        (1184, "元暦")
    } else if i == 106 {
        (1185, "文治")
    } else if i == 107 {
        (1190, "建久")
    } else if i == 108 {
        (1199, "正治")
    } else if i == 109 {
        (1201, "建仁")
    } else if i == 110 {
        (1204, "元久")
    } else if i == 111 {
        (1206, "建永")
    } else if i == 112 {
        (1207, "承元")
    } else if i == 113 {
        (1211, "建暦")
    } else if i == 114 {
        (1213, "建保")
    } else if i == 115 {
        (1219, "承久")
    } else if i == 116 {
        (1222, "貞応")
    } else if i == 117 {
        (1224, "元仁")
    } else if i == 118 {
        (1225, "嘉禄")
    } else if i == 119 {
        (1227, "安貞")
    } else if i == 120 {
        (1229, "寛喜")
    } else if i == 121 {
        (1232, "貞永")
    } else if i == 122 {
        (1233, "天福")
    } else if i == 123 {
        (1234, "文暦")
    } else if i == 124 {
        (1235, "嘉禎")
    } else if i == 125 {
        (1238, "暦仁")
    } else if i == 126 {
        (1239, "延応")
    } else if i == 127 {
        (1240, "仁治")
    } else if i == 128 {
        (1243, "寛元")
    } else if i == 129 {
        (1247, "宝治")
    } else if i == 130 {
        (1249, "建長")
    } else if i == 131 {
        (1256, "康元")
    } else if i == 132 {
        (1257, "正嘉")
    } else if i == 133 {
        (1259, "正元")
    } else if i == 134 {
        (1260, "文応")
    } else if i == 135 {
        (1261, "弘長")
    } else if i == 136 {
        (1264, "文永")
    } else if i == 137 {
        (1275, "建治")
    } else if i == 138 {
        (1278, "弘安")
    } else if i == 139 {
        (1288, "正応")
    } else if i == 140 {
        (1293, "永仁")
    } else if i == 141 {
        (1299, "正安")
    } else if i == 142 {
        (1302, "乾元")
    } else if i == 143 {
        (1303, "嘉元")
    } else if i == 144 {
        (1306, "徳治")
    } else if i == 145 {
        (1308, "延慶")
    } else if i == 146 {
        (1311, "応長")
    } else if i == 147 {
        (1312, "正和")
    } else if i == 148 {
        (1317, "文保")
    } else if i == 149 {
        (1319, "元応")
    } else if i == 150 {
        (1321, "元亨")
    } else if i == 151 {
        (1324, "正中")
    } else if i == 152 {
        (1326, "嘉暦")
    } else if i == 153 {
        (1329, "元徳")
    } else if i == 154 {
        (1331, "元弘")
    } else if i == 155 {
        (1334, "建武")
    } else if i == 156 {
        (1336, "延元")
    } else if i == 157 {
        (1340, "興国")
    } else if i == 158 {
        (1346, "正平")
    } else if i == 159 {
        (1370, "建徳")
    } else if i == 160 {
        (1372, "文中")
    } else if i == 161 {
        (1375, "天授")
    } else if i == 162 {
        (1381, "弘和")
    } else if i == 163 {
        (1384, "元中")
    } else if i == 164 {
        (1390, "明徳")
    } else if i == 165 {
        (1394, "応永")
    } else if i == 166 {
        (1428, "正長")
    } else if i == 167 {
        (1429, "永享")
    } else if i == 168 {
        (1441, "嘉吉")
    } else if i == 169 {
        (1444, "文安")
    } else if i == 170 {
        (1449, "宝徳")
    } else if i == 171 {
        (1452, "享徳")
    } else if i == 172 {
        (1455, "康正")
    } else if i == 173 {
        (1457, "長禄")
    } else if i == 174 {
        (1460, "寛正")
    } else if i == 175 {
        (1466, "文正")
    } else if i == 176 {
        (1467, "応仁")
    } else if i == 177 {
        (1469, "文明")
    } else if i == 178 {
        (1487, "長享")
    } else if i == 179 {
        (1489, "延徳")
    } else if i == 180 {
        (1492, "明応")
    } else if i == 181 {
        (1501, "文亀")
    } else if i == 182 {
        (1504, "永正")
    } else if i == 183 {
        (1521, "大永")
    } else if i == 184 {
        (1528, "享禄")
    } else if i == 185 {
        (1532, "天文")
    } else if i == 186 {
        (1555, "弘治")
    } else if i == 187 {
        (1558, "永禄")
    } else if i == 188 {
        (1570, "元亀")
    } else if i == 189 {
        (1573, "天正")
    } else if i == 190 {
        (1592, "文禄")
    } else if i == 191 {
        (1596, "慶長")
    } else if i == 192 {
        (1615, "元和")
    } else if i == 193 {
        (1624, "寛永")
    } else if i == 194 {
        (1644, "正保")
    } else if i == 195 {
        (1648, "慶安")
    } else if i == 196 {
        (1652, "承応")
    } else if i == 197 {
        (1655, "明暦")
    } else if i == 198 {
        (1658, "万治")
    } else if i == 199 {
        (1661, "寛文")
    } else if i == 200 {
        (1673, "延宝")
    } else if i == 201 {
        (1681, "天和")
    } else if i == 202 {
        (1684, "貞享")
    } else if i == 203 {
        (1688, "元禄")
    } else if i == 204 {
        (1704, "宝永")
    } else if i == 205 {
        (1711, "正徳")
    } else if i == 206 {
        (1716, "享保")
    } else if i == 207 {
        (1736, "元文")
    } else if i == 208 {
        (1741, "寛保")
    } else if i == 209 {
        (1744, "延享")
    } else if i == 210 {
        (1748, "寛延")
    } else if i == 211 {
        (1751, "宝暦")
    } else if i == 212 {
        (1764, "明和")
    } else if i == 213 {
        (1772, "安永")
    } else if i == 214 {
        (1781, "天明")
    } else if i == 215 {
        (1789, "寛政")
    } else if i == 216 {
        (1801, "享和")
    } else if i == 217 {
        (1804, "文化")
    } else if i == 218 {
        (1818, "文政")
    } else if i == 219 {
        (1830, "天保")
    } else if i == 220 {
        (1844, "弘化")
    } else if i == 221 {
        (1848, "嘉永")
    } else if i == 222 {
        (1854, "安政")
    } else if i == 223 {
        (1860, "万延")
    } else if i == 224 {
        (1861, "文久")
    } else if i == 225 {
        (1864, "元治")
    } else if i == 226 {
        (1865, "慶応")
    } else if i == 227 {
        (1868, "明治")
    } else if i == 228 {
        (1912, "大正")
    } else if i == 229 {
        (1926, "昭和")
    } else if i == 230 {
        (1989, "平成")
    } else {
        (2019, "令和")
    }
}

/// An era name with a year of the era: the first year is written 元.
pub open spec fn era_label(era: Seq<char>, era_year: int) -> Seq<char> {
    if era_year == 1 {
        era + "元"@
    } else {
        era + signed_decimal(era_year)
    }
}

/// Eras of `year` as the search from table entry `index` down to the first
/// finds them; equal to [`table_eras`] (see `lemma_era_search_finds`).
spec fn era_search(year: int, index: int) -> Seq<Seq<char>>
    decreases index,
{
    if index < 0 {
        seq![]
    } else {
        let (start, era) = era_entry(index);
        if index == ERA_COUNT - 1 && year > start {
            seq![era_label(era, year - start + 1)]
        } else if index > 0 && era_entry(index - 1).0 < year && year <= start {
            let (previous_start, previous_era) = era_entry(index - 1);
            let first: Seq<Seq<char>> = if year == start { seq![era_label(era, 1)] } else { seq![] };
            first.push(era_label(previous_era, year - previous_start + 1))
        } else if index == 0 {
            if start <= year { seq![era_label(era, year - start + 1)] } else { seq![] }
        } else {
            era_search(year, index - 1)
        }
    }
}

/// Eras of `year` from the table: the latest era that started before
/// `year` (with the year of that era), preceded by the first year of the
/// era that starts in `year`, if one does; in the start year of the first
/// era, its first year alone; before it, none.
pub open spec fn table_eras(year: int) -> Seq<Seq<char>> {
    let last = era_entry(ERA_COUNT - 1);
    if year < era_entry(0).0 {
        seq![]
    } else if year == era_entry(0).0 {
        seq![era_label(era_entry(0).1, 1)]
    } else if year > last.0 {
        seq![era_label(last.1, year - last.0 + 1)]
    } else {
        let j = choose|j: int| #![trigger era_entry(j)] 0 <= j < ERA_COUNT - 1 && era_entry(j).0 < year <= era_entry(j + 1).0;
        let first: Seq<Seq<char>> = if year == era_entry(j + 1).0 {
            seq![era_label(era_entry(j + 1).1, 1)]
        } else {
            seq![]
        };
        first.push(era_label(era_entry(j).1, year - era_entry(j).0 + 1))
    }
}

/// Start years never decrease along the table.
#[verifier::rlimit(100)]
proof fn lemma_era_starts_sorted()
    ensures
        forall|i: int| 0 <= i < ERA_COUNT - 1 ==> #[trigger] era_entry(i).0 <= era_entry(i + 1).0,
{
}

proof fn lemma_era_starts_ordered(i: int, k: int)
    requires
        0 <= i <= k < ERA_COUNT,
    ensures
        era_entry(i).0 <= era_entry(k).0,
    decreases k - i,
{
    if i < k {
        lemma_era_starts_sorted();
        lemma_era_starts_ordered(i, k - 1);
        assert(era_entry(k - 1).0 <= era_entry(k).0);
    }
}

proof fn lemma_era_search_below(year: int, i: int)
    requires
        0 <= i < ERA_COUNT,
        era_entry(0).0 <= year <= era_entry(i).0,
    ensures
        era_search(year, i) == table_eras(year),
    decreases i,
{
    lemma_era_starts_ordered(i, ERA_COUNT - 1);
    if i > 0 && era_entry(i - 1).0 < year {
        lemma_era_starts_ordered(0, i - 1);
        let j = choose|j: int| #![trigger era_entry(j)] 0 <= j < ERA_COUNT - 1 && era_entry(j).0 < year <= era_entry(j + 1).0;
        assert(0 <= i - 1 < ERA_COUNT - 1 && era_entry(i - 1).0 < year <= era_entry(i).0);
        if j < i - 1 {
            lemma_era_starts_ordered(j + 1, i - 1);
        } else if j > i - 1 {
            lemma_era_starts_ordered(i, j);
        }
        assert(j == i - 1);
    } else if i > 0 {
        lemma_era_search_below(year, i - 1);
    }
}

/// The search of the table finds the eras of [`table_eras`].
proof fn lemma_era_search_finds(year: int)
    requires
        era_entry(0).0 <= year,
    ensures
        era_search(year, ERA_COUNT - 1) == table_eras(year),
{
    if year <= era_entry(ERA_COUNT - 1).0 {
        lemma_era_search_below(year, ERA_COUNT - 1);
    }
}

/// Japanese era names of `year` (with the year of the era). `month` decides
/// the year 2019, in which Heisei ended on April 30th: 0 gives both eras,
/// January to April gives Heisei, a later month Reiwa. Years outside
/// 645..=2200 have no era.
pub open spec fn era_names(year: int, month: int) -> Seq<Seq<char>> {
    if year < 645 || year > 2200 {
        seq![]
    } else if year == 2019 {
        if month == 0 {
            seq!["令和元"@, "平成31"@]
        } else if 1 <= month <= 4 {
            seq!["平成31"@]
        } else {
            seq!["令和元"@]
        }
    } else {
        table_eras(year)
    }
}

/// `era` followed by the year of the era (元 for the first year).
pub fn format_era(era: &str, era_year: i32) -> (r: String)
    ensures
        r@ == era_label(era@, era_year as int),
{
    let mut out: Vec<char> = Vec::new();
    push_str(&mut out, era);
    if era_year == 1 {
        push_str(&mut out, "元");
    } else {
        push_decimal(&mut out, era_year as i64);
    }
    string_of(&out)
}

fn single(s: String) -> (r: Vec<String>)
    ensures
        views(r@) == seq![s@],
{
    let mut v: Vec<String> = Vec::new();
    v.push(s);
    assert(views(v@) =~= seq![s@]);
    v
}

/// Japanese era names of `year`; see [`era_names`].
pub fn era_candidates(year: i32, month: u32) -> (r: Vec<String>)
    ensures
        views(r@) == era_names(year as int, month as int),
{
    if year < 645 || year > 2200 {
        let v: Vec<String> = Vec::new();
        assert(views(v@) =~= seq![]);
        return v;
    }
    if year == 2019 {
        let mut v: Vec<String> = Vec::new();
        if month == 0 {
            v.push(string_of(&crate::text::chars_of("令和元")));
            v.push(string_of(&crate::text::chars_of("平成31")));
            assert(views(v@) =~= seq!["令和元"@, "平成31"@]);
        } else if 1 <= month && month <= 4 {
            v.push(string_of(&crate::text::chars_of("平成31")));
            assert(views(v@) =~= seq!["平成31"@]);
        } else {
            v.push(string_of(&crate::text::chars_of("令和元")));
            assert(views(v@) =~= seq!["令和元"@]);
        }
        return v;
    }
    let mut index: usize = ERA_COUNT;
    proof {
        lemma_era_search_finds(year as int);
    }
    while index > 0
        invariant
            index <= ERA_COUNT,
            645 <= year <= 2200,
            era_names(year as int, month as int) == era_search(year as int, index - 1),
        decreases index,
    {
        index = index - 1;
        let (start, era) = era_data(index);
        if index == ERA_COUNT - 1 && year > start {
            return single(format_era(era, year - start + 1));
        }
        if index > 0 {
            let (previous_start, previous_era) = era_data(index - 1);
            if previous_start < year && year <= start {
                let mut output: Vec<String> = Vec::new();
                if year == start {
                    output.push(format_era(era, 1));
                }
                output.push(format_era(previous_era, year - previous_start + 1));
                let ghost first: Seq<Seq<char>> = if year == start { seq![era_label(era@, 1)] } else { seq![] };
                assert(views(output@) =~= first.push(era_label(previous_era@, year - previous_start + 1)));
                return output;
            }
        }
        if index == 0 && start <= year {
            return single(format_era(era, year - start + 1));
        }
    }
    let v: Vec<String> = Vec::new();
    assert(views(v@) =~= seq![]);
    v
}


proof fn lemma_era_search_len(year: int, index: int)
    requires
        0 <= index < ERA_COUNT,
        645 <= year,
    ensures
        1 <= era_search(year, index).len() <= 2,
    decreases index,
{
    assert(era_entry(0).0 == 645);
    if index > 0 {
        lemma_era_search_len(year, index - 1);
    }
}

/// A year from 645 to 2200 has one or two era names (two in a year in which
/// an era starts), other years none; the month matters only in 2019.
pub proof fn lemma_era_names_bounds(year: int, month: int)
    ensures
        year < 645 || year > 2200 ==> era_names(year, month).len() == 0,
        645 <= year <= 2200 ==> 1 <= era_names(year, month).len() <= 2,
        year != 2019 ==> era_names(year, month) == era_names(year, 0),
{
    if 645 <= year <= 2200 && year != 2019 {
        lemma_era_search_len(year, ERA_COUNT - 1);
        lemma_era_search_finds(year);
    }
}

} // verus!
